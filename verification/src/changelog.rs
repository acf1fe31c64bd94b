//! What to make of the page that lists the changes of a Workshop item, and when to ask
//! for it again.
//!
//! The page is asked for over the network and searched by an HTML parser; both happen
//! elsewhere. Here are the decisions in between: which answers are worth reading,
//! what counts as a change log, which failures are worth another attempt, and what
//! stands in for a change log that could not be had.

use crate::text::{Mark, Source};
use vstd::prelude::*;
use vstd::string::*;

verus! {

broadcast use vstd::string::group_string_axioms;

/// Why no change log was had from an attempt.
#[derive(Debug, Clone, Copy, PartialEq, Eq)]
pub enum FetchFailure {
    /// The question could not be sent, or no answer came.
    Unanswered,
    /// The answer came with this status, which is not 200.
    Status(u16),
    /// The page is longer than the HTML parser takes.
    TooLong,
    /// The page holds no element of the class `workshopAnnouncement`.
    NoAnnouncement,
    /// The first announcement holds no `p` element.
    NoParagraph,
    /// The first `p` element of the first announcement is empty.
    EmptyParagraph,
}

/// What to do after an attempt.
#[derive(Debug, Clone, Copy, PartialEq, Eq)]
pub enum NextStep {
    /// Take what there is.
    Stop,
    /// Wait for [`PAUSE_SECONDS`], then ask again.
    PauseAndRetry,
    /// Wait for [`PAUSE_SECONDS`], then take what there is.
    PauseAndStop,
}

/// The number of attempts made for one item at most.
pub const ATTEMPTS: u32 = 3;

/// The seconds to wait between two questions.
pub const PAUSE_SECONDS: u64 = 3;

/// The longest page, in bytes, that the HTML parser takes.
pub const LONGEST_PAGE: usize = 0xFFFF_FFFF;

/// Whether another attempt may do better after `failure`: after a status other than
/// 200, a page that is too long, and a page without announcement, which is most likely
/// an error page.
pub open spec fn is_worth_retrying(failure: FetchFailure) -> bool {
    failure is Status || failure is TooLong || failure is NoAnnouncement
}

/// What to do after the attempt number `attempt`, counted from 1, which failed with
/// `failure` or, where `failure` is `None`, gave a change log.
pub open spec fn step_after(attempt: u32, failure: Option<FetchFailure>) -> NextStep {
    match failure {
        None => NextStep::Stop,
        Some(failure) => if !is_worth_retrying(failure) {
            NextStep::Stop
        } else if attempt < ATTEMPTS {
            NextStep::PauseAndRetry
        } else {
            NextStep::PauseAndStop
        },
    }
}

/// The tag that stands for a line break in a change log.
pub open spec fn break_tag() -> Seq<char> {
    "<br></br>"@
}

/// Whether the break tag stands in `s` at index `i`.
pub open spec fn break_at(s: Seq<char>, i: int) -> bool {
    0 <= i && i + break_tag().len() <= s.len() && s.subrange(i, i + break_tag().len())
        == break_tag()
}

/// The text of `s` from index `i` on, with a line feed in place of every break tag,
/// read from left to right.
pub open spec fn broken_from(s: Seq<char>, i: int) -> Seq<char>
    decreases s.len() - i,
{
    if 0 <= i < s.len() {
        if break_at(s, i) && break_tag().len() > 0 {
            seq!['\n'] + broken_from(s, i + break_tag().len())
        } else {
            seq![s[i]] + broken_from(s, i + 1)
        }
    } else {
        Seq::empty()
    }
}

/// The text `s` with a line feed in place of every break tag.
pub open spec fn with_line_breaks(s: Seq<char>) -> Seq<char> {
    broken_from(s, 0)
}

/// What stands in for a change log that could not be had.
pub open spec fn missing_changelog() -> Seq<char> {
    "Change log was either not provided or could not be fetched."@
}

/// What a search of the page for the first `p` element of the first announcement,
/// given as the HTML inside that element, amounts to.
pub open spec fn changelog_of(paragraph: Option<Option<Seq<char>>>) -> Result<
    Seq<char>,
    FetchFailure,
> {
    match paragraph {
        None => Err(FetchFailure::NoAnnouncement),
        Some(None) => Err(FetchFailure::NoParagraph),
        Some(Some(html)) => if html.len() == 0 {
            Err(FetchFailure::EmptyParagraph)
        } else {
            Ok(with_line_breaks(html))
        },
    }
}

impl FetchFailure {
    /// Tells whether another attempt may do better.
    pub fn worth_retrying(&self) -> (retry: bool)
        ensures
            retry == is_worth_retrying(*self),
    {
        match self {
            FetchFailure::Status(_) => true,
            FetchFailure::TooLong => true,
            FetchFailure::NoAnnouncement => true,
            _ => false,
        }
    }
}

/// Tells what to do after the attempt number `attempt`, counted from 1, which failed
/// with `failure` or, where `failure` is `None`, gave a change log.
pub fn after_attempt(attempt: u32, failure: Option<FetchFailure>) -> (next: NextStep)
    ensures
        next == step_after(attempt, failure),
{
    match failure {
        None => NextStep::Stop,
        Some(failure) => {
            if !failure.worth_retrying() {
                NextStep::Stop
            } else if attempt < ATTEMPTS {
                NextStep::PauseAndRetry
            } else {
                NextStep::PauseAndStop
            }
        },
    }
}

/// Accepts an answer with the status 200 and no other.
pub fn check_status(status: u16) -> (r: Result<(), FetchFailure>)
    ensures
        r == if status == 200 {
            Ok::<(), FetchFailure>(())
        } else {
            Err::<(), FetchFailure>(FetchFailure::Status(status))
        },
{
    if status == 200 {
        Ok(())
    } else {
        Err(FetchFailure::Status(status))
    }
}

/// Accepts a page of `bytes` bytes if the HTML parser takes it.
pub fn check_length(bytes: usize) -> (r: Result<(), FetchFailure>)
    ensures
        r == if bytes <= LONGEST_PAGE {
            Ok::<(), FetchFailure>(())
        } else {
            Err::<(), FetchFailure>(FetchFailure::TooLong)
        },
{
    if bytes <= LONGEST_PAGE {
        Ok(())
    } else {
        Err(FetchFailure::TooLong)
    }
}

/// The place after the break tag that begins at `m`, if one begins there.
fn skip_break(source: &Source<'_>, m: Mark) -> (after: Option<Mark>)
    requires
        source.wf(),
        m.within(source.chars()),
    ensures
        break_tag().len() == 9,
        match after {
            Some(end) => break_at(source.chars(), m.at()) && end.within(source.chars())
                && end.at() == m.at() + break_tag().len(),
            None => !break_at(source.chars(), m.at()),
        },
{
    let ghost s = source.chars();
    let ghost start = m.at();
    proof {
        reveal_strlit("<br></br>");
        source.lemma_mark_bounds(m);
    }
    let tag: [u8; 9] = [0x3C, 0x62, 0x72, 0x3E, 0x3C, 0x2F, 0x62, 0x72, 0x3E];
    let mut at = m;
    let mut i: usize = 0;
    while i < 9
        invariant
            i <= 9,
            source.wf(),
            s == source.chars(),
            at.within(s),
            at.at() == start + i,
            start == m.at(),
            0 <= start,
            start + i <= s.len(),
            break_tag().len() == 9,
            tag@ == seq![0x3Cu8, 0x62u8, 0x72u8, 0x3Eu8, 0x3Cu8, 0x2Fu8, 0x62u8, 0x72u8, 0x3Eu8],
            forall|k: int| 0 <= k < 9 ==> #[trigger] break_tag()[k] == tag@[k] as char,
            forall|k: int| 0 <= k < i ==> s[start + k] == #[trigger] break_tag()[k],
        decreases 9 - i,
    {
        if !source.holds(at, tag[i]) {
            proof {
                if break_at(s, start) {
                    assert(s.subrange(start, start + 9)[i as int] == s[start + i]);
                }
            }
            return None;
        }
        at = source.next(at);
        i = i + 1;
    }
    assert(s.subrange(start, start + 9) =~= break_tag());
    Some(at)
}

/// The text `html` with a line feed in place of every break tag `<br></br>`.
pub fn line_breaks(html: &str) -> (text: String)
    ensures
        text@ == with_line_breaks(html@),
{
    let source = Source::new(html);
    let ghost s = html@;
    let mut text = String::new();
    let mut m = source.start();
    proof {
        reveal_strlit("\n");
    }
    loop
        invariant
            source.wf(),
            s == source.chars(),
            s == html@,
            m.within(s),
            "\n"@ == seq!['\n'],
            text@ + broken_from(s, m.at()) == with_line_breaks(s),
        decreases s.len() - m.at(),
    {
        if source.peek(m).is_none() {
            return text;
        }
        match skip_break(&source, m) {
            Some(end) => {
                text.append("\n");
                m = end;
            },
            None => {
                let next = source.next(m);
                text.append(source.slice(m, next));
                m = next;
            },
        }
    }
}

/// What a search of the page amounts to. `paragraph` is `None` where the page holds no
/// announcement, `Some(None)` where the first announcement holds no `p` element, and
/// else the HTML inside the first `p` element of the first announcement.
pub fn read_announcement(paragraph: Option<Option<&str>>) -> (r: Result<String, FetchFailure>)
    ensures
        match r {
            Ok(text) => changelog_of(paragraph_view(paragraph)) == Ok::<Seq<char>, FetchFailure>(
                text@,
            ),
            Err(failure) => changelog_of(paragraph_view(paragraph)) == Err::<
                Seq<char>,
                FetchFailure,
            >(failure),
        },
{
    match paragraph {
        None => Err(FetchFailure::NoAnnouncement),
        Some(None) => Err(FetchFailure::NoParagraph),
        Some(Some(html)) => {
            if html.is_empty() {
                Err(FetchFailure::EmptyParagraph)
            } else {
                Ok(line_breaks(html))
            }
        },
    }
}

/// The characters of what a search of the page gave.
pub open spec fn paragraph_view(paragraph: Option<Option<&str>>) -> Option<Option<Seq<char>>> {
    match paragraph {
        None => None,
        Some(None) => Some(None),
        Some(Some(html)) => Some(Some(html@)),
    }
}

/// The change log to show: the one that was had, or the words that stand in for a
/// change log that could not be had.
pub fn changelog_or_default(fetched: Option<String>) -> (text: String)
    ensures
        text@ == match fetched {
            Some(changelog) => if changelog@.len() == 0 {
                missing_changelog()
            } else {
                changelog@
            },
            None => missing_changelog(),
        },
{
    match fetched {
        Some(changelog) => {
            if changelog.as_str().is_empty() {
                "Change log was either not provided or could not be fetched.".to_owned()
            } else {
                changelog
            }
        },
        None => "Change log was either not provided or could not be fetched.".to_owned(),
    }
}

} // verus!
