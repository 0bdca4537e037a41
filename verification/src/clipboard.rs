//! The clipboard monitor: while enabled, each new clipboard text is
//! searched for MEGA links.

use vstd::prelude::*;
use crate::link_parser::{detect_mega_links, links_view, spec_detect, MegaLink, MegaLinkView};
use crate::text::opt_text;

verus! {

/// Milliseconds between two looks at the clipboard.
pub const SLEEP_MS: u64 = 250;

/// Whether the clipboard is being watched.
pub struct ClipboardMonitor {
    enabled: bool,
}

impl ClipboardMonitor {
    /// A monitor, watching or not.
    pub fn new(enabled: bool) -> (r: Self)
        ensures
            r.is_on() == enabled,
    {
        ClipboardMonitor { enabled }
    }

    /// Whether the monitor is watching.
    pub closed spec fn is_on(&self) -> bool {
        self.enabled
    }

    /// Turns watching on or off.
    pub fn set_enabled(&mut self, enabled: bool)
        ensures
            final(self).is_on() == enabled,
    {
        self.enabled = enabled;
    }

    /// Whether the monitor is watching.
    pub fn is_enabled(&self) -> (r: bool)
        ensures
            r == self.is_on(),
    {
        self.enabled
    }
}

/// One look at the clipboard as a step: the text remembered afterwards, and
/// the links reported (the text's links when the monitor is on and the
/// clipboard holds a text other than the remembered one; none otherwise).
pub open spec fn spec_poll(last: Seq<char>, enabled: bool, read: Option<Seq<char>>) -> (Seq<char>, Seq<MegaLinkView>) {
    match read {
        Some(c) => if enabled && c != last { (c, spec_detect(c)) } else { (last, Seq::empty()) },
        None => (last, Seq::empty()),
    }
}

/// The text read at the latest enabled look, among the first `n`, that
/// found a text (the empty text if none did).
pub open spec fn last_read(polls: Seq<(bool, Option<Seq<char>>)>, n: nat) -> Seq<char>
    decreases n,
{
    if n == 0 || n > polls.len() {
        Seq::empty()
    } else {
        match polls[n - 1] {
            (true, Some(c)) => c,
            _ => last_read(polls, (n - 1) as nat),
        }
    }
}

/// The link lists the first `n` looks report, in order: one for each
/// enabled look that finds a text other than the one last read and links
/// in it.
pub open spec fn reported(polls: Seq<(bool, Option<Seq<char>>)>, n: nat) -> Seq<Seq<MegaLinkView>>
    decreases n,
{
    if n == 0 || n > polls.len() {
        Seq::empty()
    } else {
        let prev = reported(polls, (n - 1) as nat);
        match polls[n - 1] {
            (true, Some(c)) => if c != last_read(polls, (n - 1) as nat) && spec_detect(c).len() > 0 {
                prev.push(spec_detect(c))
            } else {
                prev
            },
            _ => prev,
        }
    }
}

/// The watch run over the first `n` looks from its start: the text it
/// remembers, and the non-empty link lists its looks returned, in order.
pub open spec fn run_watch(polls: Seq<(bool, Option<Seq<char>>)>, n: nat) -> (Seq<char>, Seq<Seq<MegaLinkView>>)
    decreases n,
{
    if n == 0 || n > polls.len() {
        (Seq::empty(), Seq::empty())
    } else {
        let before = run_watch(polls, (n - 1) as nat);
        let step = spec_poll(before.0, polls[n - 1].0, polls[n - 1].1);
        (step.0, if step.1.len() > 0 { before.1.push(step.1) } else { before.1 })
    }
}

/// Over any sequence of looks, the watch reports exactly the links of each
/// enabled look that finds a new text holding links (new meaning other
/// than the text of the latest enabled look that found one), in order, and
/// nothing else; it then remembers the text of that latest look.
pub proof fn lemma_watch_reports(polls: Seq<(bool, Option<Seq<char>>)>, n: nat)
    requires
        n <= polls.len(),
    ensures
        run_watch(polls, n) == (last_read(polls, n), reported(polls, n)),
    decreases n,
{
    if n > 0 {
        lemma_watch_reports(polls, (n - 1) as nat);
    }
}

/// What the watching loop remembers: the last text it looked at.
pub struct ClipboardWatch {
    pub last_content: String,
}

impl ClipboardWatch {
    /// Nothing seen yet (the empty text).
    pub fn new() -> (r: Self)
        ensures
            r.last_content@.len() == 0,
    {
        ClipboardWatch { last_content: String::new() }
    }

    /// One look at the clipboard: when the monitor is on and the clipboard
    /// holds a text other than the last one, that text is remembered and its
    /// links are returned (an empty list means nothing to report).
    pub fn poll(&mut self, enabled: bool, content: Option<String>) -> (r: Vec<MegaLink>)
        ensures
            (final(self).last_content@, links_view(r@)) == spec_poll(old(self).last_content@, enabled, opt_text(content)),
            match content {
                Some(c) => if enabled && c@ != old(self).last_content@ {
                    final(self).last_content@ == c@
                        && links_view(r@) == spec_detect(c@)
                } else {
                    final(self).last_content@ == old(self).last_content@ && r@.len() == 0
                },
                None => final(self).last_content@ == old(self).last_content@ && r@.len() == 0,
            },
    {
        if !enabled {
            return Vec::new();
        }
        let c = match content {
            Some(c) => c,
            None => {
                return Vec::new();
            },
        };
        if c == self.last_content {
            return Vec::new();
        }
        let links = detect_mega_links(c.as_str());
        self.last_content = c;
        links
    }
}

} // verus!
