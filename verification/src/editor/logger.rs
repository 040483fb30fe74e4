use vstd::prelude::*;
use vstd::string::StringExecFns;

verus! {

/// The number of messages that a clamped vector holds at most.
pub const CLAMPED_VEC_CAPACITY: usize = 400;

/// `s` with `value` behind it, after dropping the oldest item of a full `s`.
pub open spec fn clamped_push<T>(s: Seq<T>, value: T) -> Seq<T> {
    if s.len() >= CLAMPED_VEC_CAPACITY {
        s.remove(0).push(value)
    } else {
        s.push(value)
    }
}

/// A vector that forgets its oldest item when a new one arrives at capacity.
pub trait ClampedVec<T>: Sized {
    spec fn items(&self) -> Seq<T>;

    fn new_clamped_capacity() -> (v: Self)
        ensures
            v.items() == Seq::<T>::empty(),
    ;

    fn push_clamped(&mut self, value: T)
        ensures
            final(self).items() == clamped_push(old(self).items(), value),
    ;
}

impl<T> ClampedVec<T> for Vec<T> {
    open spec fn items(&self) -> Seq<T> {
        self@
    }

    fn new_clamped_capacity() -> (v: Self) {
        Vec::<T>::with_capacity(CLAMPED_VEC_CAPACITY)
    }

    fn push_clamped(&mut self, value: T) {
        if self.len() >= CLAMPED_VEC_CAPACITY {
            self.remove(0);
        }
        self.push(value);
    }
}

/// `needle` occurs in `haystack` as a run of consecutive characters.
pub open spec fn occurs_in(needle: Seq<char>, haystack: Seq<char>) -> bool {
    exists|i: int|
        0 <= i && i + needle.len() <= haystack.len() && #[trigger] haystack.subrange(
            i,
            i + needle.len(),
        ) == needle
}

/// Calls `str::contains` with a string as the pattern. Trusted: the result
/// is `true` exactly when `needle` occurs in `haystack`.
#[verifier::external_body]
fn str_contains(haystack: &str, needle: &str) -> (found: bool)
    ensures
        found == occurs_in(needle@, haystack@),
{
    haystack.contains(needle)
}

/// Decides of a log target whether its messages are kept. A filter can be
/// shared between threads, as a logger is.
pub trait Filter: Send + Sync {
    /// The targets that pass; an implementation may state its own.
    open spec fn passes(&self, string: Seq<char>) -> bool {
        arbitrary()
    }

    fn is_pass(&self, string: &str) -> (pass: bool)
        ensures
            pass == self.passes(string@),
    ;
}

/// Keeps the targets in which a given string occurs.
pub struct FilterContains<'a> {
    pub string: &'a str,
}

impl Filter for FilterContains<'_> {
    open spec fn passes(&self, string: Seq<char>) -> bool {
        occurs_in(self.string@, string)
    }

    fn is_pass(&self, string: &str) -> (pass: bool) {
        str_contains(string, self.string)
    }
}

/// One logged line.
pub struct LogMessage {
    pub target: String,
    pub message: String,
}

impl LogMessage {
    /// Target and text of the line.
    pub open spec fn view(&self) -> (Seq<char>, Seq<char>) {
        (self.target@, self.message@)
    }
}

/// What a buffer of messages holds, line by line.
pub open spec fn lines(messages: Seq<LogMessage>) -> Seq<(Seq<char>, Seq<char>)> {
    Seq::new(messages.len(), |i: int| messages[i]@)
}

/// Collects log lines into a clamped buffer, optionally only those whose
/// target passes a filter.
pub struct Logger {
    pub filter: Option<Box<dyn Filter>>,
}

impl Logger {
    /// Whether a line for `target` is kept.
    pub open spec fn keeps(&self, target: Seq<char>) -> bool {
        match self.filter {
            Some(filter) => filter.passes(target),
            None => true,
        }
    }

    /// Appends the line to `messages` unless the filter turns its target away.
    pub fn log(&self, messages: &mut Vec<LogMessage>, target: &str, message: String)
        ensures
            self.keeps(target@) ==> lines(final(messages)@) == clamped_push(
                lines(old(messages)@),
                (target@, message@),
            ),
            !self.keeps(target@) ==> final(messages)@ == old(messages)@,
    {
        if let Some(filter) = &self.filter {
            if !filter.is_pass(target) {
                return ;
            }
        }
        let entry = LogMessage { target: target.to_owned(), message };
        messages.push_clamped(entry);
        assert(lines(messages@) =~= clamped_push(lines(old(messages)@), (target@, message@)));
    }
}

/// `text` in lower case, as `str::to_lowercase` gives it.
pub uninterp spec fn lowercase(text: Seq<char>) -> Seq<char>;

/// Calls `str::to_lowercase`. Trusted: the result is the lower case of
/// `text`, which depends on `text` alone.
#[verifier::external_body]
fn to_lowercase(text: &str) -> (lowered: String)
    ensures
        lowered@ == lowercase(text@),
{
    text.to_lowercase()
}

/// The line that the log window shows for an entry: the target in square
/// brackets, a space, the message, and a line feed.
pub open spec fn shown_line(entry: (Seq<char>, Seq<char>)) -> Seq<char> {
    seq!['['] + entry.0 + seq![']', ' '] + entry.1 + seq!['\n']
}

/// The lines of the first `n` of `entries` whose message, in lower case,
/// holds `filter`.
pub open spec fn shown(entries: Seq<(Seq<char>, Seq<char>)>, filter: Seq<char>, n: int) -> Seq<
    char,
>
    decreases n,
{
    if n <= 0 {
        Seq::empty()
    } else {
        let before = shown(entries, filter, n - 1);
        if occurs_in(filter, lowercase(entries[n - 1].1)) {
            before + shown_line(entries[n - 1])
        } else {
            before
        }
    }
}

/// Puts the line of `entry` behind `text` where `lowered`, the message of
/// the entry in lower case, holds `filter`.
pub fn append_line(text: &mut String, entry: &LogMessage, lowered: &str, filter: &str)
    ensures
        final(text)@ == (if occurs_in(filter@, lowered@) {
            old(text)@ + shown_line(entry@)
        } else {
            old(text)@
        }),
{
    if str_contains(lowered, filter) {
        proof {
            reveal_strlit("[");
            reveal_strlit("] ");
            reveal_strlit("\n");
        }
        text.append("[");
        text.append(entry.target.as_str());
        text.append("] ");
        text.append(entry.message.as_str());
        text.append("\n");
        assert(text@ =~= old(text)@ + shown_line(entry@));
    }
}

/// The text of the log window: the line of every message that, in lower
/// case, holds `filter`.
pub fn log_text(messages: &Vec<LogMessage>, filter: &str) -> (text: String)
    ensures
        text@ == shown(lines(messages@), filter@, messages@.len() as int),
{
    let mut text = String::new();
    let mut i: usize = 0;
    while i < messages.len()
        invariant
            i <= messages@.len(),
            text@ == shown(lines(messages@), filter@, i as int),
        decreases messages@.len() - i,
    {
        let lowered = to_lowercase(messages[i].message.as_str());
        assert(lines(messages@)[i as int] == messages@[i as int]@);
        append_line(&mut text, &messages[i], lowered.as_str(), filter);
        i += 1;
    }
    text
}

} // verus!
