use vstd::prelude::*;

pub mod text;

verus! {

/// Where a stream of bytes comes from: a local file path, a remote URL, or
/// the process's standard input.
#[derive(Debug, Clone)]
pub enum SourceReader {
    /// A path on the local filesystem, not yet checked to exist.
    Local(String),
    /// A remote resource, addressed by the URL text kept verbatim.
    Remote(String),
    /// The process's standard input; carries no data of its own.
    Stdin,
}

/// The mathematical shape of a `SourceReader`: the origin, with the text
/// it keeps.
pub enum Source {
    Local(Seq<char>),
    Remote(Seq<char>),
    Stdin,
}

impl View for SourceReader {
    type V = Source;

    open spec fn view(&self) -> Source {
        match self {
            SourceReader::Local(p) => Source::Local(p@),
            SourceReader::Remote(u) => Source::Remote(u@),
            SourceReader::Stdin => Source::Stdin,
        }
    }
}

/// How an input string is classified, total and deterministic: the single
/// dash names standard input; text opening with `http://` or `https://` is a
/// remote URL, kept verbatim; everything else is a local path, kept verbatim.
pub open spec fn classify(s: Seq<char>) -> Source {
    if s == text::stdin_text() {
        Source::Stdin
    } else if text::is_remote_text(s) {
        Source::Remote(s)
    } else {
        Source::Local(s)
    }
}

/// The name a source shows: the base name for a local path; the text after
/// the last `/` for a URL, the whole text when it has none; nothing for
/// standard input.
pub open spec fn spec_filename(m: Source) -> Option<Seq<char>> {
    match m {
        Source::Local(p) => text::path_file_name(p),
        Source::Remote(u) => Some(text::after_last_slash(u)),
        Source::Stdin => None,
    }
}

impl SourceReader {
    /// Classifies a string: `-` yields `Stdin`; a string opening with
    /// `http://` or `https://` yields `Remote` holding it unchanged; every
    /// other string yields `Local` holding it as a path. Never fails.
    pub fn from_str(path: &str) -> (r: SourceReader)
        ensures
            r@ == classify(path@),
    {
        proof {
            reveal_strlit("http://");
            reveal_strlit("https://");
            assert("http://"@ =~= text::http_prefix());
            assert("https://"@ =~= text::https_prefix());
        }
        let n = path.unicode_len();
        if n == 1 && path.get_char(0) == '-' {
            proof {
                assert(path@ =~= text::stdin_text());
            }
            SourceReader::Stdin
        } else if text::str_has_prefix(path, "http://") || text::str_has_prefix(path, "https://") {
            SourceReader::Remote(path.to_owned())
        } else {
            SourceReader::Local(path.to_owned())
        }
    }

    /// Classifies an owned string, by the same rules as `from_str`.
    pub fn from_string(path: String) -> (r: SourceReader)
        ensures
            r@ == classify(path@),
    {
        SourceReader::from_str(path.as_str())
    }

    /// Wraps a path the caller already knows to be a filesystem path: the
    /// result is `Local` whatever the text looks like — a lone dash or a
    /// URL-shaped string is still taken as a path here.
    pub fn local(path: String) -> (r: SourceReader)
        ensures
            r@ == Source::Local(path@),
    {
        SourceReader::Local(path)
    }

    /// The filename of the source, and nothing for standard input: for a
    /// local path its base name, read as `path_file_name` says; for a URL
    /// everything after the last `/`, kept verbatim — an empty name when the
    /// URL ends in `/`, the whole text when it has no `/`. Pure and total.
    pub fn filename(&self) -> (r: Option<String>)
        ensures
            r.deep_view() == spec_filename(self@),
    {
        match self {
            SourceReader::Local(p) => {
                let s = p.as_str();
                let n = s.unicode_len();
                let mut j: usize = n;
                proof {
                    assert(s@.subrange(0, n as int) =~= s@);
                }
                while text::droppable_tail(s, j)
                    invariant
                        j <= n,
                        n == s@.len(),
                        text::strip_trailing(s@) == text::strip_trailing(
                            s@.subrange(0, j as int),
                        ),
                    decreases j,
                {
                    proof {
                        assert(s@.subrange(0, j as int).drop_last() =~= s@.subrange(
                            0,
                            j as int - 1,
                        ));
                    }
                    j -= 1;
                }
                proof {
                    assert(text::strip_trailing(s@) == s@.subrange(0, j as int));
                }
                if j == 0 {
                    return None;
                }
                let cut = text::last_segment_start(s, j);
                proof {
                    let t = s@.subrange(0, j as int);
                    assert(forall|k: int| 0 <= k < j ==> t[k] == s@[k]);
                    text::lemma_after_last_slash(t, cut as int);
                    assert(text::after_last_slash(t) =~= s@.subrange(cut as int, j as int));
                }
                if j - cut == 2 && s.get_char(cut) == '.' && s.get_char(cut + 1) == '.' {
                    proof {
                        assert(s@.subrange(cut as int, j as int) =~= seq!['.', '.']);
                    }
                    None
                } else {
                    proof {
                        let seg = s@.subrange(cut as int, j as int);
                        if seg.len() == 2 {
                            assert(seg[0] == s@[cut as int]);
                            assert(seg[1] == s@[cut as int + 1]);
                        }
                        assert(seg != seq!['.', '.']);
                    }
                    Some(s.substring_char(cut, j).to_owned())
                }
            },
            SourceReader::Remote(u) => {
                let s = u.as_str();
                let n = s.unicode_len();
                let cut = text::last_segment_start(s, n);
                proof {
                    assert(s@.subrange(0, n as int) =~= s@);
                    text::lemma_after_last_slash(s@, cut as int);
                }
                Some(s.substring_char(cut, n).to_owned())
            },
            SourceReader::Stdin => None,
        }
    }
}

} // verus!
