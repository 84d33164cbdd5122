//! The single admit/deny decision for a changed path.
//!
//! Composes the ignore matcher, the extension filter and the debouncer, in
//! that fixed order, with short-circuiting.  The order is a contract, not
//! an optimization: the debounce clock is consulted and mutated only for
//! paths that already passed the ignore and extension checks, so a denied
//! path never starts or resets a debounce window.

use vstd::prelude::*;
use crate::debouncer::Debouncer;
use crate::debouncer::debounce_step;
use crate::debouncer::lemma_admit_window;
use crate::debouncer::time_left_reading;
use crate::extension_filter::ExtensionFilter;
use crate::ignore_matcher::IgnoreMatcher;

verus! {

/// Admit/deny decision per path: `not ignored AND supported AND debounced`.
pub struct IndexDecider {
    ignore_matcher: IgnoreMatcher,
    extension_filter: ExtensionFilter,
    debouncer: Debouncer,
}

impl IndexDecider {
    /// The ignore matcher consulted first.
    pub closed spec fn matcher(self) -> IgnoreMatcher {
        self.ignore_matcher
    }

    /// The extension filter consulted second.
    pub closed spec fn filter(self) -> ExtensionFilter {
        self.extension_filter
    }

    /// The debouncer consulted last.
    pub closed spec fn deb(self) -> Debouncer {
        self.debouncer
    }

    pub open spec fn wf(self) -> bool {
        self.matcher().wf() && self.deb().wf()
    }

    /// Whether the ignore matcher excludes `p`.
    pub open spec fn ignored(self, p: Seq<char>) -> bool {
        self.matcher().spec_is_ignored(p, false)
    }

    /// Whether the extension filter accepts `p`.
    pub open spec fn supported(self, p: Seq<char>) -> bool {
        self.filter().spec_supported(p)
    }

    /// The decision made at instant `now`.
    pub open spec fn spec_should_index(self, p: Seq<char>, now: int) -> bool {
        !self.ignored(p) && self.supported(p) && self.deb().admits(p, now)
    }

    pub fn new(
        ignore_matcher: IgnoreMatcher,
        extension_filter: ExtensionFilter,
        debouncer: Debouncer,
    ) -> (r: IndexDecider)
        ensures
            r.matcher() == ignore_matcher,
            r.filter() == extension_filter,
            r.deb() == debouncer,
    {
        IndexDecider { ignore_matcher, extension_filter, debouncer }
    }

    /// Decide at instant `now` whether `path` should be (re-)indexed.  A
    /// path denied by the ignore matcher or the extension filter leaves
    /// the debounce state untouched; an eligible path consults and steps
    /// the debouncer.
    pub fn should_index_at(&mut self, path: &str, now: u128) -> (r: bool)
        requires
            old(self).wf(),
            now as int >= old(self).deb().spec_clock(),
        ensures
            final(self).wf(),
            final(self).matcher() == old(self).matcher(),
            final(self).filter() == old(self).filter(),
            r == old(self).spec_should_index(path@, now as int),
            old(self).ignored(path@) || !old(self).supported(path@) ==> final(self).deb()
                == old(self).deb(),
            !old(self).ignored(path@) && old(self).supported(path@) ==> debounce_step(
                old(self).deb(),
                final(self).deb(),
                path@,
                r,
                now as int,
            ),
    {
        if self.ignore_matcher.is_ignored(path) {
            return false;
        }
        if !self.extension_filter.is_supported(path) {
            return false;
        }
        self.debouncer.should_index_at(path, now)
    }

    /// The largest instant the debouncer has been consulted at.
    pub fn clock_value(&self) -> (r: u128)
        ensures
            r as int == self.deb().spec_clock(),
    {
        self.debouncer.clock_value()
    }

    /// `should_index_at` against the system clock.
    pub fn should_index(&mut self, path: &str) -> (r: bool)
        requires
            old(self).wf(),
        ensures
            final(self).wf(),
            final(self).matcher() == old(self).matcher(),
            final(self).filter() == old(self).filter(),
            old(self).ignored(path@) || !old(self).supported(path@) ==> final(self).deb()
                == old(self).deb() && r == false,
            !old(self).ignored(path@) && old(self).supported(path@) ==> exists|n: int|
                #[trigger] debounce_step(old(self).deb(), final(self).deb(), path@, r, n),
    {
        if self.ignore_matcher.is_ignored(path) {
            return false;
        }
        if !self.extension_filter.is_supported(path) {
            return false;
        }
        let r = self.debouncer.should_index(path);
        proof {
            let n = choose|n: int|
                #[trigger] debounce_step(old(self).debouncer, self.debouncer, path@, r, n);
            assert(debounce_step(old(self).deb(), self.deb(), path@, r, n));
        }
        r
    }

    /// The debouncer's remaining wait for `path`, read at instant `now`;
    /// it consults the debouncer only and never mutates anything.
    pub fn debounce_duration_left_at(&self, path: &str, now: u128) -> (r: u128)
        requires
            self.wf(),
            now as int >= self.deb().spec_clock(),
        ensures
            r as int == self.deb().spec_time_left(path@, now as int),
    {
        self.debouncer.time_left_at(path, now)
    }

    /// `debounce_duration_left_at` against the system clock.
    pub fn debounce_duration_left(&self, path: &str) -> (r: u128)
        requires
            self.wf(),
        ensures
            exists|n: int| #[trigger] time_left_reading(self.deb(), path@, r as int, n),
    {
        self.debouncer.time_left(path)
    }
}

/// On its first consultation for an eligible path — one that is neither
/// ignored nor unsupported and has no debounce record — the decision is to
/// index, whatever the instant.
pub proof fn lemma_first_call_admitted(d: IndexDecider, p: Seq<char>, now: int)
    requires
        !d.ignored(p),
        d.supported(p),
        !d.deb().times().contains_key(p),
    ensures
        d.spec_should_index(p, now),
{
}

/// Once an eligible path is admitted at instant `n`, the decision is to
/// deny it at every instant before one full window has elapsed, and to
/// admit it again at every instant from `n + window` on.
pub proof fn lemma_window_round_trip(
    pre: IndexDecider,
    post: IndexDecider,
    p: Seq<char>,
    n: int,
    later: int,
)
    requires
        !pre.ignored(p),
        pre.supported(p),
        post.matcher() == pre.matcher(),
        post.filter() == pre.filter(),
        debounce_step(pre.deb(), post.deb(), p, true, n),
    ensures
        later - n < post.deb().window() ==> !post.spec_should_index(p, later),
        later - n >= post.deb().window() ==> post.spec_should_index(p, later),
{
    lemma_admit_window(pre.deb(), post.deb(), p, n, later);
}

} // verus!
