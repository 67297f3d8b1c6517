//! The gateway's trusted boundary: the few outside calls the verified logic
//! relies on — regular-expression matching, random target selection, and
//! the one-shot stop channels that halt listener workers.

use vstd::prelude::*;

verus! {

/// Whether a regular-expression pattern compiles. Compilation succeeds or
/// fails by the pattern text alone.
pub uninterp spec fn regex_pattern_ok(pattern: Seq<char>) -> bool;

/// Whether a regular expression matches anywhere in a text. The outcome is
/// a function of the pattern and the text alone.
pub uninterp spec fn regex_matches(pattern: Seq<char>, text: Seq<char>) -> bool;

/// Relies on regex::Regex::new and regex::Regex::is_match: `new` accepts or
/// rejects by the pattern text alone, and `is_match` reports whether the
/// pattern matches anywhere in `text`, a function of the two strings alone.
#[verifier::external_body]
pub fn regex_match(pattern: &str, text: &str) -> (r: Option<bool>)
    ensures
        r is Some <==> regex_pattern_ok(pattern@),
        r is Some ==> r->Some_0 == regex_matches(pattern@, text@),
{
    match regex::Regex::new(pattern) {
        Ok(re) => Some(re.is_match(text)),
        Err(_) => None,
    }
}

/// Relies on rand::Rng::gen_range over `0..n` (on rand::thread_rng): it
/// panics only on an empty range and returns a value of the range; nothing
/// more is promised of a random draw.
#[verifier::external_body]
pub fn random_below(n: usize) -> (r: usize)
    requires
        n > 0,
    ensures
        r < n,
{
    rand::Rng::gen_range(&mut rand::thread_rng(), 0..n)
}

#[verifier::external_type_specification]
#[verifier::external_body]
#[verifier::reject_recursive_types(T)]
pub struct ExOneshotSender<T>(futures::channel::oneshot::Sender<T>);

/// Relies on futures::channel::oneshot::Sender::send: it consumes the
/// sender and wakes the receiving end with the value; the result only
/// reports whether the receiver was still listening, which depends on the
/// peer task and so is not pinned here.
#[verifier::external_body]
pub fn send_stop_signal(sender: futures::channel::oneshot::Sender<i32>, value: i32) -> (r: bool) {
    sender.send(value).is_ok()
}

} // verus!
