//! Gitignore-style ignore decisions, built once from ordered pattern lines.
//!
//! Matching follows gitignore precedence: the last pattern that matches a
//! path decides, and a negated (`!`) pattern re-admits a path excluded by an
//! earlier one.  A line that does not parse as a pattern is a non-fatal
//! skip.  The pattern compilation and the per-path verdict are supplied by
//! the `ignore` crate through the trusted items below; everything this
//! module states about them is phrased over the named functions of the
//! added lines.

use vstd::prelude::*;
use crate::errors::SetupError;

verus! {

#[verifier::external_type_specification]
#[verifier::external_body]
pub struct ExGitignoreBuilder(ignore::gitignore::GitignoreBuilder);

#[verifier::external_type_specification]
#[verifier::external_body]
pub struct ExGitignore(ignore::gitignore::Gitignore);

/// The root a fresh builder records for root-relative matching.
pub uninterp spec fn ignore_root(root: Seq<char>) -> Seq<char>;

/// The pattern state a builder holds.
pub uninterp spec fn builder_patterns(b: ignore::gitignore::GitignoreBuilder) -> Seq<Seq<char>>;

/// The root a builder holds.
pub uninterp spec fn builder_root(b: ignore::gitignore::GitignoreBuilder) -> Seq<char>;

/// The pattern state reached by adding one accepted line.
pub uninterp spec fn line_added(patterns: Seq<Seq<char>>, line: Seq<char>) -> Seq<Seq<char>>;

/// Whether a line is accepted as a pattern line (comments and blank lines
/// are; a line whose glob does not parse is not).
pub uninterp spec fn pattern_compiles(line: Seq<char>) -> bool;

/// Whether the compiled matcher can be built from a pattern state.
/// Compilation is deterministic in the accepted patterns.
pub uninterp spec fn build_ok(patterns: Seq<Seq<char>>) -> bool;

/// The pattern state a built matcher carries.
pub uninterp spec fn matcher_patterns(g: ignore::gitignore::Gitignore) -> Seq<Seq<char>>;

/// The root a built matcher carries.
pub uninterp spec fn matcher_root(g: ignore::gitignore::Gitignore) -> Seq<char>;

/// The verdict of gitignore matching: whether a matcher built at `root`
/// from `patterns`, in that order, ignores `path`.
pub uninterp spec fn ignore_verdict(
    root: Seq<char>,
    patterns: Seq<Seq<char>>,
    path: Seq<char>,
    is_dir: bool,
) -> bool;

/// Relies on ignore's `GitignoreBuilder::new`: a fresh builder holds no
/// patterns and records the given root.
#[verifier::external_body]
fn builder_new(root: &str) -> (b: ignore::gitignore::GitignoreBuilder)
    ensures
        builder_patterns(b) == Seq::<Seq<char>>::empty(),
        builder_root(b) == ignore_root(root@),
{
    ignore::gitignore::GitignoreBuilder::new(root)
}

/// Relies on ignore's `GitignoreBuilder::add_line`: an accepted line moves
/// the builder's pattern state by that line; a rejected line (a glob that
/// does not parse) leaves the builder unchanged.  Acceptance depends on the
/// line alone.
#[verifier::external_body]
fn builder_add_line(b: &mut ignore::gitignore::GitignoreBuilder, line: &str) -> (ok: bool)
    ensures
        ok == pattern_compiles(line@),
        builder_root(*final(b)) == builder_root(*old(b)),
        ok ==> builder_patterns(*final(b)) == line_added(builder_patterns(*old(b)), line@),
        !ok ==> builder_patterns(*final(b)) == builder_patterns(*old(b)),
{
    b.add_line(None, line).is_ok()
}

/// Relies on ignore's `GitignoreBuilder::build`: compiling the glob set is
/// deterministic in the builder's pattern state, and the built matcher
/// carries that state and the builder's root.
#[verifier::external_body]
fn builder_build(b: &ignore::gitignore::GitignoreBuilder) -> (r: Option<
    ignore::gitignore::Gitignore,
>)
    ensures
        r is Some <==> build_ok(builder_patterns(*b)),
        r matches Some(g) ==> matcher_patterns(g) == builder_patterns(*b) && matcher_root(g)
            == builder_root(*b),
{
    b.build().ok()
}

/// Relies on ignore's `Gitignore::matched` and `Match::is_ignore`: the
/// verdict is a function of the matcher's root, its patterns, the path and
/// the is-directory flag alone.
#[verifier::external_body]
fn matcher_is_ignored(g: &ignore::gitignore::Gitignore, path: &str, is_dir: bool) -> (r: bool)
    ensures
        r == ignore_verdict(matcher_root(*g), matcher_patterns(*g), path@, is_dir),
{
    g.matched(path, is_dir).is_ignore()
}

/// The pattern state reached by adding `lines` in order to an empty
/// builder: accepted lines accumulate, rejected lines are skipped.
pub open spec fn patterns_after(lines: Seq<Seq<char>>) -> Seq<Seq<char>>
    decreases lines.len(),
{
    if lines.len() == 0 {
        Seq::empty()
    } else {
        let prev = patterns_after(lines.drop_last());
        if pattern_compiles(lines.last()) {
            line_added(prev, lines.last())
        } else {
            prev
        }
    }
}

/// Decides whether a path is excluded from indexing, per the pattern lines
/// the matcher was built from.
pub struct IgnoreMatcher {
    matcher: ignore::gitignore::Gitignore,
    root: Ghost<Seq<char>>,
    lines: Ghost<Seq<Seq<char>>>,
}

impl IgnoreMatcher {
    /// The root the matcher was built at.
    pub closed spec fn spec_root(self) -> Seq<char> {
        self.root@
    }

    /// The lines the matcher was built from, in order.
    pub closed spec fn spec_lines(self) -> Seq<Seq<char>> {
        self.lines@
    }

    /// The held matcher state corresponds to the recorded root and lines.
    pub closed spec fn wf(self) -> bool {
        &&& matcher_root(self.matcher) == self.root@
        &&& matcher_patterns(self.matcher) == patterns_after(self.lines@)
    }

    /// The decision `is_ignored` makes for a path.
    pub open spec fn spec_is_ignored(self, path: Seq<char>, is_dir: bool) -> bool {
        ignore_verdict(self.spec_root(), patterns_after(self.spec_lines()), path, is_dir)
    }

    /// Build a matcher rooted at `root` from the lines of the root's ignore
    /// files followed by caller-supplied pattern lines, in that order.  A
    /// line that does not parse is skipped, never fatal; construction fails
    /// exactly when the compiled matcher cannot be built from the accepted
    /// patterns.
    pub fn from_root_project(root: &str, ignore_lines: Vec<String>, user_ignores: Vec<&str>) -> (r:
        Result<IgnoreMatcher, SetupError>)
        ensures
            r is Ok <==> build_ok(
                patterns_after(
                    ignore_lines@.map_values(|s: String| s@) + user_ignores@.map_values(
                        |s: &str| s@,
                    ),
                ),
            ),
            r matches Ok(m) ==> m.wf() && m.spec_root() == ignore_root(root@) && m.spec_lines()
                == ignore_lines@.map_values(|s: String| s@) + user_ignores@.map_values(
                |s: &str| s@,
            ),
            r matches Err(e) ==> e == SetupError::IgnoreBuildFailed,
    {
        let ghost file_views = ignore_lines@.map_values(|s: String| s@);
        let ghost user_views = user_ignores@.map_values(|s: &str| s@);
        let mut b = builder_new(root);
        let mut i: usize = 0;
        while i < ignore_lines.len()
            invariant
                i <= ignore_lines@.len(),
                file_views == ignore_lines@.map_values(|s: String| s@),
                builder_root(b) == ignore_root(root@),
                builder_patterns(b) == patterns_after(file_views.take(i as int)),
            decreases ignore_lines@.len() - i,
        {
            proof {
                assert(file_views.take(i + 1).drop_last() =~= file_views.take(i as int));
                assert(file_views.take(i + 1).last() == ignore_lines@[i as int]@);
            }
            let _accepted = builder_add_line(&mut b, ignore_lines[i].as_str());
            i += 1;
        }
        proof {
            assert(file_views.take(ignore_lines@.len() as int) =~= file_views);
        }
        let mut j: usize = 0;
        while j < user_ignores.len()
            invariant
                j <= user_ignores@.len(),
                file_views == ignore_lines@.map_values(|s: String| s@),
                user_views == user_ignores@.map_values(|s: &str| s@),
                builder_root(b) == ignore_root(root@),
                builder_patterns(b) == patterns_after(file_views + user_views.take(j as int)),
            decreases user_ignores@.len() - j,
        {
            proof {
                assert((file_views + user_views.take(j + 1)).drop_last() =~= file_views
                    + user_views.take(j as int));
                assert((file_views + user_views.take(j + 1)).last() == user_ignores@[j as int]@);
            }
            let _accepted = builder_add_line(&mut b, user_ignores[j]);
            j += 1;
        }
        proof {
            assert(file_views + user_views.take(user_ignores@.len() as int) =~= file_views
                + user_views);
        }
        match builder_build(&b) {
            Some(g) => Ok(
                IgnoreMatcher {
                    matcher: g,
                    root: Ghost(ignore_root(root@)),
                    lines: Ghost(file_views + user_views),
                },
            ),
            None => Err(SetupError::IgnoreBuildFailed),
        }
    }

    /// Whether `path` (taken as a file, not a directory) is excluded.
    pub fn is_ignored(&self, path: &str) -> (r: bool)
        requires
            self.wf(),
        ensures
            r == self.spec_is_ignored(path@, false),
    {
        matcher_is_ignored(&self.matcher, path, false)
    }
}

} // verus!
