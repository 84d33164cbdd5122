//! Static allowlist of file extensions eligible for indexing.

use vstd::prelude::*;

verus! {

/// Index of the last occurrence of `c` in `s`, or `-1` if `c` does not occur.
pub open spec fn last_index_of_char(s: Seq<char>, c: char) -> int
    decreases s.len(),
{
    if s.len() == 0 {
        -1
    } else if s.last() == c {
        s.len() - 1
    } else {
        last_index_of_char(s.drop_last(), c)
    }
}

/// The extension of a path: the part of the final path component after its
/// last dot.  A component with no dot, or whose only dot is its leading
/// character (a hidden file such as `.gitignore`), has no extension.
pub open spec fn extension_of(p: Seq<char>) -> Option<Seq<char>> {
    let slash = last_index_of_char(p, '/');
    let dot = last_index_of_char(p, '.');
    if dot > slash + 1 {
        Some(p.subrange(dot + 1, p.len() as int))
    } else {
        None
    }
}

pub proof fn lemma_last_index_bounds(s: Seq<char>, c: char)
    ensures
        -1 <= last_index_of_char(s, c) < s.len(),
        last_index_of_char(s, c) >= 0 ==> s[last_index_of_char(s, c)] == c,
    decreases s.len(),
{
    if s.len() > 0 && s.last() != c {
        lemma_last_index_bounds(s.drop_last(), c);
    }
}

pub proof fn lemma_last_index_push(s: Seq<char>, x: char, c: char)
    ensures
        last_index_of_char(s.push(x), c) == if x == c {
            s.len() as int
        } else {
            last_index_of_char(s, c)
        },
{
    assert(s.push(x).drop_last() =~= s);
}

/// Membership test of a path's extension against a configured allowlist.
pub struct ExtensionFilter {
    supported_extensions: Vec<String>,
}

impl ExtensionFilter {
    /// Whether `e` is one of the allowed extensions.
    pub closed spec fn supports_ext(self, e: Seq<char>) -> bool {
        exists|i: int|
            0 <= i < self.supported_extensions@.len() && self.supported_extensions@[i]@ == e
    }

    /// The decision `is_supported` makes for a path.
    pub closed spec fn spec_supported(self, p: Seq<char>) -> bool {
        match extension_of(p) {
            Some(e) => self.supports_ext(e),
            None => false,
        }
    }

    pub fn new(extensions: Vec<&str>) -> (r: ExtensionFilter)
        ensures
            forall|e: Seq<char>|
                r.supports_ext(e) <==> (exists|i: int|
                    0 <= i < extensions@.len() && extensions@[i]@ == e),
    {
        let mut supported: Vec<String> = Vec::new();
        let mut i: usize = 0;
        while i < extensions.len()
            invariant
                i <= extensions@.len(),
                supported@.len() == i,
                forall|j: int| 0 <= j < i ==> supported@[j]@ == extensions@[j]@,
            decreases extensions@.len() - i,
        {
            supported.push(extensions[i].to_owned());
            i += 1;
        }
        let ghost snap = supported@;
        let filt = ExtensionFilter { supported_extensions: supported };
        proof {
            assert forall|e: Seq<char>|
                filt.supports_ext(e) <==> (exists|k: int|
                    0 <= k < extensions@.len() && extensions@[k]@ == e) by {
                if filt.supports_ext(e) {
                    let k = choose|k: int|
                        0 <= k < filt.supported_extensions@.len() && filt.supported_extensions@[k]@
                            == e;
                    assert(extensions@[k]@ == e);
                }
                if exists|k: int| 0 <= k < extensions@.len() && extensions@[k]@ == e {
                    let k = choose|k: int| 0 <= k < extensions@.len() && extensions@[k]@ == e;
                    assert(filt.supported_extensions@[k]@ == e);
                }
            }
        }
        filt
    }

    /// The path's extension as an owned string, mirroring `extension_of`.
    pub fn extension_str(path: &str) -> (r: Option<String>)
        ensures
            r is Some <==> extension_of(path@) is Some,
            r matches Some(s) ==> Some(s@) == extension_of(path@),
    {
        let n = path.unicode_len();
        let mut last_slash: Option<usize> = None;
        let mut last_dot: Option<usize> = None;
        let mut i: usize = 0;
        while i < n
            invariant
                n == path@.len(),
                i <= n,
                (match last_slash {
                    None => -1,
                    Some(k) => k as int,
                }) == last_index_of_char(path@.take(i as int), '/'),
                (match last_dot {
                    None => -1,
                    Some(k) => k as int,
                }) == last_index_of_char(path@.take(i as int), '.'),
            decreases n - i,
        {
            let c = path.get_char(i);
            proof {
                assert(path@.take((i + 1) as int) =~= path@.take(i as int).push(path@[i as int]));
                lemma_last_index_push(path@.take(i as int), path@[i as int], '/');
                lemma_last_index_push(path@.take(i as int), path@[i as int], '.');
            }
            if c == '/' {
                last_slash = Some(i);
            } else if c == '.' {
                last_dot = Some(i);
            }
            i += 1;
        }
        proof {
            assert(path@.take(n as int) =~= path@);
        }
        let has_ext = match (last_dot, last_slash) {
            (Some(d), None) => d >= 1,
            (Some(d), Some(s)) => d > s && d - s >= 2,
            (None, _) => false,
        };
        if has_ext {
            let d = match last_dot {
                Some(d) => d,
                None => 0,
            };
            proof {
                lemma_last_index_bounds(path@, '.');
            }
            Some(path.substring_char(d + 1, n).to_owned())
        } else {
            None
        }
    }

    /// Exact (case-sensitive) membership of the path's extension in the
    /// allowlist; a path with no extension is never supported.
    pub fn is_supported(&self, path: &str) -> (r: bool)
        ensures
            r == self.spec_supported(path@),
    {
        match Self::extension_str(path) {
            None => false,
            Some(ext) => {
                let mut i: usize = 0;
                let mut found = false;
                while i < self.supported_extensions.len()
                    invariant
                        i <= self.supported_extensions@.len(),
                        found <==> (exists|j: int|
                            0 <= j < i && self.supported_extensions@[j]@ == ext@),
                    decreases self.supported_extensions@.len() - i,
                {
                    if self.supported_extensions[i] == ext {
                        found = true;
                    }
                    i += 1;
                }
                found
            },
        }
    }
}

/// What `spec_supported` decides, stated for callers outside this module:
/// a path is supported exactly when it has an extension and that extension
/// is a member of the allowlist.
pub proof fn lemma_spec_supported(f: ExtensionFilter, p: Seq<char>)
    ensures
        f.spec_supported(p) == match extension_of(p) {
            Some(e) => f.supports_ext(e),
            None => false,
        },
{
}

} // verus!