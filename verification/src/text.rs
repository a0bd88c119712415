//! Spec-level descriptions of the bits of text the library reads — prefixes,
//! the segment after the last separator, a path's base name — together with
//! the executable scans that compute them.

use vstd::prelude::*;

verus! {

/// The characters of `p` are the opening characters of `s`.
pub open spec fn has_prefix(s: Seq<char>, p: Seq<char>) -> bool {
    p.len() <= s.len() && s.subrange(0, p.len() as int) == p
}

/// The one-character text that stands for standard input.
pub open spec fn stdin_text() -> Seq<char> {
    seq!['-']
}

/// The scheme prefix of a plain URL.
pub open spec fn http_prefix() -> Seq<char> {
    seq!['h', 't', 't', 'p', ':', '/', '/']
}

/// The scheme prefix of a TLS URL.
pub open spec fn https_prefix() -> Seq<char> {
    seq!['h', 't', 't', 'p', 's', ':', '/', '/']
}

/// Text that addresses a remote resource: it opens with one of the two
/// URL schemes.
pub open spec fn is_remote_text(s: Seq<char>) -> bool {
    has_prefix(s, http_prefix()) || has_prefix(s, https_prefix())
}

/// True exactly when the characters of `p` open `s`.
pub fn str_has_prefix(s: &str, p: &str) -> (b: bool)
    ensures
        b == has_prefix(s@, p@),
{
    let sn = s.unicode_len();
    let pn = p.unicode_len();
    if sn < pn {
        return false;
    }
    let mut i: usize = 0;
    while i < pn
        invariant
            i <= pn <= sn,
            sn == s@.len(),
            pn == p@.len(),
            forall|k: int| 0 <= k < i ==> s@[k] == p@[k],
        decreases pn - i,
    {
        if s.get_char(i) != p.get_char(i) {
            proof {
                assert(s@.subrange(0, pn as int)[i as int] == s@[i as int]);
            }
            return false;
        }
        i += 1;
    }
    proof {
        assert(s@.subrange(0, pn as int) =~= p@);
    }
    true
}

/// Everything in `s` after its last `/`; all of `s` when no `/` occurs in it.
pub open spec fn after_last_slash(s: Seq<char>) -> Seq<char>
    decreases s.len(),
{
    if s.len() == 0 {
        s
    } else if s.last() == '/' {
        Seq::empty()
    } else {
        after_last_slash(s.drop_last()).push(s.last())
    }
}

/// `after_last_slash(s)` is the tail of `s` from `cut`, whenever `cut` sits
/// just past the last `/` of `s` — or at the start, when `s` has none.
pub proof fn lemma_after_last_slash(s: Seq<char>, cut: int)
    requires
        0 <= cut <= s.len(),
        cut == 0 || s[cut - 1] == '/',
        forall|k: int| cut <= k < s.len() ==> s[k] != '/',
    ensures
        after_last_slash(s) == s.subrange(cut, s.len() as int),
    decreases s.len(),
{
    if s.len() == 0 {
        assert(after_last_slash(s) =~= s.subrange(cut, s.len() as int));
    } else if s.last() == '/' {
        if cut < s.len() {
            assert(s[s.len() - 1] != '/');
        }
        assert(after_last_slash(s) =~= s.subrange(cut, s.len() as int));
    } else {
        if cut == s.len() {
            assert(s[cut - 1] == '/');
        }
        assert(forall|k: int| cut <= k < s.len() - 1 ==> s.drop_last()[k] == s[k]);
        lemma_after_last_slash(s.drop_last(), cut);
        assert(after_last_slash(s) =~= s.subrange(cut, s.len() as int));
    }
}

/// The path text ends in a separator, or in a lone `.` segment; reading a
/// file name ignores either tail.
pub open spec fn has_droppable_tail(s: Seq<char>) -> bool {
    s.len() > 0 && (s.last() == '/' || (s.last() == '.' && (s.len() == 1 || s[s.len() as int
        - 2] == '/')))
}

/// `s` with every trailing separator and every trailing `.` segment removed.
pub open spec fn strip_trailing(s: Seq<char>) -> Seq<char>
    decreases s.len(),
{
    if has_droppable_tail(s) {
        strip_trailing(s.drop_last())
    } else {
        s
    }
}

/// The base name of a local path: the last segment once trailing separators
/// and `.` segments are dropped; none when nothing remains, or when the last
/// segment is the parent marker `..`.
pub open spec fn path_file_name(s: Seq<char>) -> Option<Seq<char>> {
    let t = strip_trailing(s);
    if t.len() == 0 {
        None
    } else if after_last_slash(t) == seq!['.', '.'] {
        None
    } else {
        Some(after_last_slash(t))
    }
}

/// True exactly when the opening `j` characters of `s` end in a droppable
/// tail: a separator, or a lone `.` segment.
pub fn droppable_tail(s: &str, j: usize) -> (b: bool)
    requires
        j <= s@.len(),
    ensures
        b == has_droppable_tail(s@.subrange(0, j as int)),
{
    if j == 0 {
        return false;
    }
    let c = s.get_char(j - 1);
    let b = c == '/' || (c == '.' && (j == 1 || s.get_char(j - 2) == '/'));
    proof {
        let t = s@.subrange(0, j as int);
        assert(t.last() == s@[j - 1]);
        if j >= 2 {
            assert(t[j - 2] == s@[j - 2]);
        }
    }
    b
}

/// The index just past the last `/` among the opening `end` characters of
/// `s`; 0 when that stretch holds no `/` at all.
pub fn last_segment_start(s: &str, end: usize) -> (cut: usize)
    requires
        end <= s@.len(),
    ensures
        cut <= end,
        cut == 0 || s@[cut - 1] == '/',
        forall|k: int| cut <= k < end ==> s@[k] != '/',
{
    let mut cut: usize = 0;
    let mut i: usize = 0;
    while i < end
        invariant
            cut <= i <= end <= s@.len(),
            cut == 0 || s@[cut - 1] == '/',
            forall|k: int| cut <= k < i ==> s@[k] != '/',
        decreases end - i,
    {
        if s.get_char(i) == '/' {
            cut = i + 1;
        }
        i += 1;
    }
    cut
}

} // verus!
