//! Talking to the chat service: what its answers mean.

use vstd::prelude::*;

use crate::text::{decimal, digit, find, find_from, to_chars};

verus! {

/// How long a request may take, in seconds.
pub const REQUEST_TIMEOUT_SECS: u64 = 600;

/// How long to pause before each attempt to send, in milliseconds.
pub const SEND_PAUSE_MILLIS: u64 = 1200;

/// What can go wrong with the chat service.
#[derive(Debug)]
pub enum GatewayError {
    /// The service refused a request.
    Telegram(String),
    /// A file could not be fetched.
    Download(String),
    /// A file on this machine could not be read, or no client could be made.
    Io(String),
}

/// A `GatewayError` with its text.
pub enum GatewayErrorView {
    Telegram(Seq<char>),
    Download(Seq<char>),
    Io(Seq<char>),
}

impl View for GatewayError {
    type V = GatewayErrorView;

    open spec fn view(&self) -> GatewayErrorView {
        match self {
            GatewayError::Telegram(text) => GatewayErrorView::Telegram(text@),
            GatewayError::Download(text) => GatewayErrorView::Download(text@),
            GatewayError::Io(text) => GatewayErrorView::Io(text@),
        }
    }
}

impl GatewayError {
    /// The error in words.
    pub fn message(&self) -> (text: String)
        ensures
            text@ == match self@ {
                GatewayErrorView::Telegram(cause) => "telegram: "@ + cause,
                GatewayErrorView::Download(cause) => "download: "@ + cause,
                GatewayErrorView::Io(cause) => "io: "@ + cause,
            },
    {
        match self {
            GatewayError::Telegram(cause) => {
                let mut text: String = "telegram: ".to_string();
                text.append(cause.as_str());
                text
            },
            GatewayError::Download(cause) => {
                let mut text: String = "download: ".to_string();
                text.append(cause.as_str());
                text
            },
            GatewayError::Io(cause) => {
                let mut text: String = "io: ".to_string();
                text.append(cause.as_str());
                text
            },
        }
    }
}

/// A decimal digit.
pub open spec fn is_digit(c: char) -> bool {
    '0' <= c <= '9'
}

/// The number whose digits are those of `so_far` and the digits at the head of the text.
pub open spec fn number_from(text: Seq<char>, so_far: nat) -> nat
    decreases text.len(),
{
    if text.len() == 0 || !is_digit(text[0]) {
        so_far
    } else {
        number_from(text.drop_first(), so_far * 10 + (text[0] as nat - 48) as nat)
    }
}

/// The number behind the first "Retry after " in a text; zero where no digit follows it.
pub open spec fn retry_after(text: Seq<char>) -> Option<nat> {
    match find_from(text, "Retry after "@, 0) {
        None => None,
        Some(at) => Some(number_from(text.skip((at + "Retry after "@.len()) as int), 0)),
    }
}

/// What the text of an error asks for.
#[derive(Debug, PartialEq, Eq, Structural, Clone, Copy)]
pub enum Retry {
    /// Wait for so many seconds and try again.
    Wait(u64),
    /// Do not try again.
    GiveUp,
    /// Wait for longer than 64 bits can count.
    TooLong,
}

/// What the text of an error asks for: to wait where it names a number of seconds that is not
/// zero.
pub fn retry_decision(text: &str) -> (retry: Retry)
    ensures
        retry == match retry_after(text@) {
            None => Retry::GiveUp,
            Some(secs) => if secs == 0 {
                Retry::GiveUp
            } else if secs <= u64::MAX {
                Retry::Wait(secs as u64)
            } else {
                Retry::TooLong
            },
        },
{
    let chars: Vec<char> = to_chars(text);
    let needle: Vec<char> = to_chars("Retry after ");
    match find(&chars, &needle) {
        None => Retry::GiveUp,
        Some(at) => {
            proof {
                crate::text::lemma_find_from(chars@, needle@, 0);
                assert(at + needle@.len() <= chars.len());
            }
            let start: usize = at + needle.len();
            match read_number(&chars, start) {
                None => Retry::TooLong,
                Some(secs) => {
                    if secs == 0 {
                        Retry::GiveUp
                    } else {
                        Retry::Wait(secs)
                    }
                },
            }
        },
    }
}

/// Reads the number that stands in a text from `start` on, if it fits in 64 bits.
fn read_number(text: &Vec<char>, start: usize) -> (r: Option<u64>)
    requires
        start <= text@.len(),
    ensures
        match r {
            Some(n) => number_from(text@.skip(start as int), 0) == n,
            None => number_from(text@.skip(start as int), 0) > u64::MAX,
        },
{
    let mut i: usize = start;
    let mut n: u64 = 0;
    while i < text.len() && '0' <= text[i] && text[i] <= '9'
        invariant
            start <= i <= text@.len(),
            number_from(text@.skip(start as int), 0) == number_from(text@.skip(i as int), n as nat),
        decreases text@.len() - i,
    {
        let d: u64 = (text[i] as u64) - 48;
        let ghost rest = text@.skip(i as int);
        proof {
            assert(rest[0] == text@[i as int]);
            assert(rest.drop_first() =~= text@.skip(i + 1));
            lemma_number_grows(rest.drop_first(), (n * 10 + d) as nat);
        }
        if n > (u64::MAX - d) / 10 {
            return None;
        }
        n = n * 10 + d;
        i = i + 1;
    }
    proof {
        if i < text@.len() {
            assert(text@.skip(i as int)[0] == text@[i as int]);
        }
    }
    Some(n)
}

/// Further digits do not make a number smaller.
proof fn lemma_number_grows(text: Seq<char>, so_far: nat)
    ensures
        number_from(text, so_far) >= so_far,
    decreases text.len(),
{
    if text.len() > 0 && is_digit(text[0]) {
        lemma_number_grows(text.drop_first(), so_far * 10 + (text[0] as nat - 48) as nat);
    }
}

/// How an attempt to send went.
#[derive(Debug)]
pub enum SendOutcome {
    /// The service keeps the bytes under this name.
    Sent(String),
    /// The service refused them, in these words.
    Refused(String),
    /// The service was not reached, or answered nonsense.
    Broken,
}

/// What is to be done after an attempt to send.
#[derive(Debug)]
pub enum SendStep {
    /// The bytes are kept under this name.
    Done(String),
    /// Wait for so many seconds and try again.
    RetryAfter(u64),
    /// Report the error.
    Fail,
    /// The service asks for a pause that 64 bits cannot count.
    TooLong,
}

/// What is to be done after an attempt to send: a refusal that names a pause is tried again after
/// it, any other error is reported.
pub fn after_send(outcome: SendOutcome) -> (step: SendStep)
    ensures
        match outcome {
            SendOutcome::Sent(name) => step == SendStep::Done(name),
            SendOutcome::Refused(text) => step == match retry_after(text@) {
                None => SendStep::Fail,
                Some(secs) => if secs == 0 {
                    SendStep::Fail
                } else if secs <= u64::MAX {
                    SendStep::RetryAfter(secs as u64)
                } else {
                    SendStep::TooLong
                },
            },
            SendOutcome::Broken => step == SendStep::Fail,
        },
{
    match outcome {
        SendOutcome::Sent(name) => SendStep::Done(name),
        SendOutcome::Refused(text) => {
            match retry_decision(text.as_str()) {
                Retry::Wait(secs) => SendStep::RetryAfter(secs),
                Retry::GiveUp => SendStep::Fail,
                Retry::TooLong => SendStep::TooLong,
            }
        },
        SendOutcome::Broken => SendStep::Fail,
    }
}

/// Whether the path that the service names for a file is one on this machine: a drive letter's
/// colon stands in it, with a slash of either kind behind it.
pub fn is_local_path(path: &str) -> (local: bool)
    ensures
        local == (find_from(path@, ":\\"@, 0) is Some || find_from(path@, ":/"@, 0) is Some),
{
    let chars: Vec<char> = to_chars(path);
    let backward: Vec<char> = to_chars(":\\");
    let forward: Vec<char> = to_chars(":/");
    find(&chars, &backward).is_some() || find(&chars, &forward).is_some()
}

/// A number in decimal is read back as that number.
proof fn lemma_read_decimal(n: nat, rest: Seq<char>)
    ensures
        number_from(decimal(n) + rest, 0) == number_from(rest, n),
    decreases n,
{
    let d = digit((n % 10) as nat);
    let tail = seq![d] + rest;
    assert(tail.drop_first() =~= rest);
    if n < 10 {
        assert(decimal(n) + rest =~= tail);
    } else {
        lemma_read_decimal(n / 10, tail);
        assert(decimal(n) + rest =~= decimal(n / 10) + tail);
    }
}

/// The service is understood: where "Retry after " stands in a text for the first time, with a
/// number in decimal behind it, that number is the pause.
pub proof fn law_pause_is_understood(before: Seq<char>, secs: nat, rest: Seq<char>)
    requires
        find_from(before + "Retry after "@ + decimal(secs) + rest, "Retry after "@, 0) == Some(
            before.len(),
        ),
        rest.len() == 0 || !is_digit(rest[0]),
    ensures
        retry_after(before + "Retry after "@ + decimal(secs) + rest) == Some(secs),
{
    let text = before + "Retry after "@ + decimal(secs) + rest;
    lemma_read_decimal(secs, rest);
    assert(text.skip((before.len() + "Retry after "@.len()) as int) =~= decimal(secs) + rest);
}

/// Where the service does not name a pause, none is understood: neither in a text in which the words
/// do not stand, nor where no digit follows them.
pub proof fn law_no_pause_is_made_up(text: Seq<char>)
    ensures
        (forall|k: int|
            0 <= k <= text.len() - "Retry after "@.len() ==> #[trigger] text.subrange(
                k,
                k + "Retry after "@.len(),
            ) != "Retry after "@) <==> retry_after(text) is None,
        find_from(text, "Retry after "@, 0) matches Some(at) ==> {
            let rest = text.skip((at + "Retry after "@.len()) as int);
            (rest.len() == 0 || !('0' <= rest[0] <= '9')) ==> retry_after(text) == Some(0nat)
        },
{
    crate::text::law_found_where_it_stands_first(text, "Retry after "@);
}

/// A path is one on this machine exactly if a colon stands in it with a slash of either kind behind
/// it.
pub proof fn law_local_paths(path: Seq<char>)
    ensures
        (find_from(path, ":\\"@, 0) is Some || find_from(path, ":/"@, 0) is Some) <==> exists|
            k: int,
        |
            0 <= k < path.len() - 1 && #[trigger] path[k] == ':' && (path[k + 1] == '\\' || path[k
                + 1] == '/'),
{
    reveal_strlit(":\\");
    reveal_strlit(":/");
    crate::text::law_found_where_it_stands_first(path, ":\\"@);
    crate::text::law_found_where_it_stands_first(path, ":/"@);
    match find_from(path, ":\\"@, 0) {
        Some(at) => {
            let s = path.subrange(at as int, at as int + 2);
            assert(s[0] == path[at as int] && s[1] == path[at as int + 1]);
        },
        None => {},
    }
    match find_from(path, ":/"@, 0) {
        Some(at) => {
            let s = path.subrange(at as int, at as int + 2);
            assert(s[0] == path[at as int] && s[1] == path[at as int + 1]);
        },
        None => {},
    }
    if exists|k: int|
        0 <= k < path.len() - 1 && #[trigger] path[k] == ':' && (path[k + 1] == '\\' || path[k + 1]
            == '/') {
        let k = choose|k: int|
            0 <= k < path.len() - 1 && #[trigger] path[k] == ':' && (path[k + 1] == '\\' || path[k
                + 1] == '/');
        if path[k + 1] == '/' {
            assert(path.subrange(k, k + 2) =~= ":/"@);
        } else {
            assert(path.subrange(k, k + 2) =~= ":\\"@);
        }
    }
}

/// A pause is the number that the digits behind the words spell in decimal, all of them and nothing
/// behind them.
pub proof fn law_pause_ends_with_its_digits(before: Seq<char>, secs: nat, rest: Seq<char>)
    requires
        find_from(before + "Retry after "@ + decimal(secs) + rest, "Retry after "@, 0) == Some(
            before.len(),
        ),
        rest.len() == 0 || !('0' <= rest[0] <= '9'),
    ensures
        retry_after(before + "Retry after "@ + decimal(secs) + rest) == Some(secs),
{
    law_pause_is_understood(before, secs, rest);
}

}
