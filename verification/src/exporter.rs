use vstd::prelude::*;

verus! {

/// The formats a mesh can be written in.
#[derive(Clone, Copy, PartialEq, Eq, Structural, Debug)]
pub enum FileFormat {
    Obj,
    Poly,
}

/// Why a path names no format to write a mesh in.
#[derive(Debug)]
pub enum PathError {
    /// The file name has no `.`; `name` is the file name.
    ExtensionNotSpecified { name: String },
    /// The extension names no known format; `name` is the file name up to its first `.`.
    FileTypeNotSupported { extension: String, name: String },
}

/// Whether the part of `s` from `k` on has no `/`, and `k` is 0 or just after a `/`.
pub open spec fn is_name_start(s: Seq<char>, k: int) -> bool {
    0 <= k <= s.len() && (k == 0 || s[k - 1] == '/') && forall|j: int| k <= j < s.len() ==> s[j] != '/'
}

/// Where the part of `s` after the last `/` starts: just after that `/`, or at 0 where there
/// is none.
pub open spec fn name_start(s: Seq<char>) -> int {
    choose|k: int| #[trigger] is_name_start(s, k)
}

/// The part of a path after its last `/`.
pub open spec fn file_name(s: Seq<char>) -> Seq<char> {
    s.subrange(name_start(s), s.len() as int)
}

/// Whether `s` has no `.` before `d`, and `d` is the length of `s` or a `.` is at `d`.
pub open spec fn is_first_dot(s: Seq<char>, d: int) -> bool {
    0 <= d <= s.len() && (d == s.len() || s[d] == '.') && forall|j: int| 0 <= j < d ==> s[j] != '.'
}

/// Where the first `.` of `s` is, or the length of `s` where there is none.
pub open spec fn first_dot(s: Seq<char>) -> int {
    choose|d: int| #[trigger] is_first_dot(s, d)
}

/// The part of `s` before its first `.`.
pub open spec fn before_dot(s: Seq<char>) -> Seq<char> {
    s.subrange(0, first_dot(s))
}

/// The part of `s` after its first `.`.
pub open spec fn after_dot(s: Seq<char>) -> Seq<char> {
    s.subrange(first_dot(s) + 1, s.len() as int)
}

/// The format a path names: the extension of a file name is the part between its first and
/// second `.`.
pub open spec fn format_of(path: Seq<char>) -> Result<FileFormat, (Seq<char>, Seq<char>)> {
    let f = file_name(path);
    let extension = before_dot(after_dot(f));
    if extension == seq!['o', 'b', 'j'] {
        Ok(FileFormat::Obj)
    } else if extension == seq!['p', 'o', 'l', 'y'] {
        Ok(FileFormat::Poly)
    } else {
        Err((extension, before_dot(f)))
    }
}

/// The first `.` in `s` from `from` on, or the length of `s`.
fn find_dot(s: &str, from: usize, len: usize) -> (r: usize)
    requires
        len == s@.len(),
        from <= len,
    ensures
        from <= r <= len,
        r == len || s@[r as int] == '.',
        forall|j: int| from <= j < r ==> s@[j] != '.',
{
    let mut d = from;
    while d < len
        invariant
            len == s@.len(),
            from <= d <= len,
            forall|j: int| from <= j < d ==> s@[j] != '.',
        decreases len - d,
    {
        if s.get_char(d) == '.' {
            return d;
        }
        d = d + 1;
    }
    d
}

/// Whether `s` is the text of `word`.
fn is_word(s: &str, word: &str) -> (r: bool)
    ensures
        r == (s@ == word@),
{
    let n = s.unicode_len();
    if n != word.unicode_len() {
        return false;
    }
    let mut i: usize = 0;
    while i < n
        invariant
            n == s@.len(),
            n == word@.len(),
            i <= n,
            forall|j: int| 0 <= j < i ==> s@[j] == word@[j],
        decreases n - i,
    {
        if s.get_char(i) != word.get_char(i) {
            return false;
        }
        i = i + 1;
    }
    assert(s@ =~= word@);
    true
}

/// The format to write a mesh in that a path names by the extension of its file name: `obj`
/// or `poly`. Fails where the file name has no extension, or the extension names no format.
pub fn file_format(path: &str) -> (r: Result<FileFormat, PathError>)
    ensures
        !file_name(path@).contains('.') <==> r is Err && r->Err_0 is ExtensionNotSpecified,
        r matches Err(PathError::ExtensionNotSpecified { name }) ==> name@ == file_name(path@),
        file_name(path@).contains('.') ==> match format_of(path@) {
            Ok(format) => r == Ok::<FileFormat, PathError>(format),
            Err((extension, name)) => r matches Err(PathError::FileTypeNotSupported { extension: e, name: n })
                && e@ == extension && n@ == name,
        },
{
    let len = path.unicode_len();
    let ghost s = path@;
    let mut start: usize = 0;
    let mut i: usize = 0;
    while i < len
        invariant
            len == s.len(),
            s == path@,
            start <= i <= len,
            start == 0 || s[start - 1] == '/',
            forall|j: int| start <= j < i ==> s[j] != '/',
        decreases len - i,
    {
        if path.get_char(i) == '/' {
            start = i + 1;
        }
        i = i + 1;
    }
    proof {
        assert(is_name_start(s, start as int));
        let k = name_start(s);
        if k != start as int {
            if k < start as int {
                assert(s[start - 1] == '/');
            } else {
                assert(s[k - 1] == '/');
            }
        }
    }
    let name = path.substring_char(start, len);
    let ghost f = name@;
    assert(f == file_name(s));
    let name_len = len - start;
    let dot = find_dot(name, 0, name_len);
    proof {
        assert(is_first_dot(f, dot as int));
        let d = first_dot(f);
        if d != dot as int {
            if d < dot as int {
                assert(f[d] == '.');
            } else {
                assert(f[dot as int] == '.');
            }
        }
    }
    let stem = name.substring_char(0, dot);
    if dot == name_len {
        proof {
            assert forall|j: int| 0 <= j < f.len() implies f[j] != '.' by {
            }
            assert(!f.contains('.'));
            assert(f =~= stem@);
        }
        return Err(PathError::ExtensionNotSpecified { name: stem.to_owned() });
    }
    assert(f.contains('.')) by {
        assert(f[dot as int] == '.');
    }
    let rest = name.substring_char(dot + 1, name_len);
    assert(rest@ == after_dot(f));
    let rest_len = name_len - dot - 1;
    let dot2 = find_dot(rest, 0, rest_len);
    proof {
        let g = rest@;
        assert(is_first_dot(g, dot2 as int));
        let d = first_dot(g);
        if d != dot2 as int {
            if d < dot2 as int {
                assert(g[d] == '.');
            } else {
                assert(g[dot2 as int] == '.');
            }
        }
    }
    let extension = rest.substring_char(0, dot2);
    assert(extension@ == before_dot(after_dot(f)));
    let obj = "obj";
    let poly = "poly";
    proof {
        reveal_strlit("obj");
        reveal_strlit("poly");
        assert(obj@ =~= seq!['o', 'b', 'j']);
        assert(poly@ =~= seq!['p', 'o', 'l', 'y']);
    }
    if is_word(extension, obj) {
        Ok(FileFormat::Obj)
    } else if is_word(extension, poly) {
        Ok(FileFormat::Poly)
    } else {
        Err(PathError::FileTypeNotSupported { extension: extension.to_owned(), name: stem.to_owned() })
    }
}

} // verus!
