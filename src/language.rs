//! Languages recognised by path extension, and bounded code snippets.

use vstd::prelude::*;

use crate::regex::utf8_width;
use crate::scan::{rfind_char, rfind_char_before};
use crate::text::{chars_of, eq_seq, string_of};

verus! {

/// A source language that the extractor understands.
#[derive(Clone, Copy, Debug, PartialEq, Eq, Structural)]
pub enum SupportedLanguage {
    Rust,
    Python,
    JavaScript,
    TypeScript,
    Tsx,
    Go,
    Java,
    CSharp,
    Ruby,
    Cpp,
    Swift,
}

/// The extension of a path: the text after the last `.` of its file name,
/// where a file name that starts with its only `.` has none.
pub open spec fn extension_of(path: Seq<char>) -> Option<Seq<char>> {
    let name_start = match rfind_char_before(path, '/', path.len() as int) {
        Some(k) => k + 1,
        None => 0,
    };
    let name = path.subrange(name_start, path.len() as int);
    match rfind_char_before(name, '.', name.len() as int) {
        Some(d) => if d > 0 {
            Some(name.subrange(d + 1, name.len() as int))
        } else {
            None
        },
        None => None,
    }
}

/// The language of an extension.
pub open spec fn language_of_extension(e: Seq<char>) -> Option<SupportedLanguage> {
    if e == "rs"@ {
        Some(SupportedLanguage::Rust)
    } else if e == "py"@ {
        Some(SupportedLanguage::Python)
    } else if e == "js"@ || e == "mjs"@ || e == "cjs"@ {
        Some(SupportedLanguage::JavaScript)
    } else if e == "ts"@ {
        Some(SupportedLanguage::TypeScript)
    } else if e == "tsx"@ {
        Some(SupportedLanguage::Tsx)
    } else if e == "go"@ {
        Some(SupportedLanguage::Go)
    } else if e == "java"@ {
        Some(SupportedLanguage::Java)
    } else if e == "cs"@ {
        Some(SupportedLanguage::CSharp)
    } else if e == "rb"@ {
        Some(SupportedLanguage::Ruby)
    } else if e == "cc"@ || e == "cpp"@ || e == "cxx"@ || e == "hpp"@ || e == "h"@ {
        Some(SupportedLanguage::Cpp)
    } else if e == "swift"@ {
        Some(SupportedLanguage::Swift)
    } else {
        None
    }
}

/// The language of a path, by its extension.
pub open spec fn language_of_path(path: Seq<char>) -> Option<SupportedLanguage> {
    match extension_of(path) {
        Some(e) => language_of_extension(e),
        None => None,
    }
}

fn is_ext(e: &Vec<char>, lit: &str) -> (b: bool)
    ensures
        b == (e@ == lit@),
{
    eq_seq(e, &chars_of(lit))
}

impl SupportedLanguage {
    /// The language of a path, by its extension; `None` for any other.
    pub fn from_path(path: &str) -> (r: Option<SupportedLanguage>)
        ensures
            r == language_of_path(path@),
    {
        let p = chars_of(path);
        let name_start = match rfind_char(&p, '/', p.len()) {
            Some(k) => k + 1,
            None => 0,
        };
        let name = crate::scan::slice_chars(&p, name_start, p.len());
        let d = match rfind_char(&name, '.', name.len()) {
            Some(d) => d,
            None => return None,
        };
        if d == 0 {
            return None;
        }
        let e = crate::scan::slice_chars(&name, d + 1, name.len());
        if is_ext(&e, "rs") {
            Some(SupportedLanguage::Rust)
        } else if is_ext(&e, "py") {
            Some(SupportedLanguage::Python)
        } else if is_ext(&e, "js") || is_ext(&e, "mjs") || is_ext(&e, "cjs") {
            Some(SupportedLanguage::JavaScript)
        } else if is_ext(&e, "ts") {
            Some(SupportedLanguage::TypeScript)
        } else if is_ext(&e, "tsx") {
            Some(SupportedLanguage::Tsx)
        } else if is_ext(&e, "go") {
            Some(SupportedLanguage::Go)
        } else if is_ext(&e, "java") {
            Some(SupportedLanguage::Java)
        } else if is_ext(&e, "cs") {
            Some(SupportedLanguage::CSharp)
        } else if is_ext(&e, "rb") {
            Some(SupportedLanguage::Ruby)
        } else if is_ext(&e, "cc") || is_ext(&e, "cpp") || is_ext(&e, "cxx") || is_ext(&e, "hpp")
            || is_ext(&e, "h") {
            Some(SupportedLanguage::Cpp)
        } else if is_ext(&e, "swift") {
            Some(SupportedLanguage::Swift)
        } else {
            None
        }
    }
}

/// Most lines kept in a snippet.
pub const MAX_SNIPPET_LINES: usize = 10;

/// Most bytes kept in a snippet.
pub const MAX_SNIPPET_BYTES: usize = 2048;

/// UTF-8 size of a character sequence.
pub open spec fn utf8_len(s: Seq<char>) -> nat
    decreases s.len(),
{
    if s.len() == 0 {
        0
    } else {
        utf8_len(s.drop_last()) + utf8_width(s.last())
    }
}

/// Number of newlines in `s`.
pub open spec fn newlines(s: Seq<char>) -> nat
    decreases s.len(),
{
    if s.len() == 0 {
        0
    } else {
        newlines(s.drop_last()) + if s.last() == '\n' {
            1nat
        } else {
            0nat
        }
    }
}

/// Keeping `s[..k+1]` would break a limit: more than 2048 bytes, or a
/// tenth newline with more text after it.
pub open spec fn cut_at(s: Seq<char>, k: int) -> bool {
    utf8_len(s.subrange(0, k + 1)) > MAX_SNIPPET_BYTES || (s[k] == '\n' && newlines(s.subrange(0, k))
        == MAX_SNIPPET_LINES - 1 && k + 1 < s.len())
}

/// The first position at or after `k` where the snippet must be cut.
pub open spec fn first_cut(s: Seq<char>, k: int) -> Option<int>
    decreases s.len() - k,
{
    if k < 0 || k >= s.len() {
        None
    } else if cut_at(s, k) {
        Some(k)
    } else {
        first_cut(s, k + 1)
    }
}

/// The marker appended when the byte limit cuts.
pub open spec fn byte_marker() -> Seq<char> {
    "\n    // ... (truncated)"@
}

/// The marker appended when the line limit cuts.
pub open spec fn line_marker() -> Seq<char> {
    "\n    // ..."@
}

/// The bounded snippet of `s`: all of it when it fits, else the longest
/// prefix that fits followed by the marker of the limit that cut.
pub open spec fn snippet_of(s: Seq<char>) -> Seq<char> {
    match first_cut(s, 0) {
        None => s,
        Some(k) => s.subrange(0, k) + if utf8_len(s.subrange(0, k + 1)) > MAX_SNIPPET_BYTES {
            byte_marker()
        } else {
            line_marker()
        },
    }
}

/// A snippet held to at most 10 lines and 2048 bytes. The cut falls on a
/// character boundary and a marker says that it was cut.
pub fn bounded_snippet(raw: &str) -> (r: String)
    ensures
        r@ == snippet_of(raw@),
        first_cut(raw@, 0) is None ==> r@ == raw@ && utf8_len(raw@) <= MAX_SNIPPET_BYTES && newlines(raw@)
            <= MAX_SNIPPET_LINES,
        first_cut(raw@, 0) matches Some(k) ==> {
            &&& utf8_len(raw@.subrange(0, k)) <= MAX_SNIPPET_BYTES
            &&& newlines(raw@.subrange(0, k)) < MAX_SNIPPET_LINES
            &&& r@ == raw@.subrange(0, k) + byte_marker() || r@ == raw@.subrange(0, k) + line_marker()
        },
{
    let cs = chars_of(raw);
    let mut bytes: usize = 0;
    let mut lines: usize = 0;
    let mut i: usize = 0;
    assert(cs@.subrange(0, 0) =~= Seq::<char>::empty());
    while i < cs.len()
        invariant
            i <= cs@.len(),
            cs@ == raw@,
            bytes == utf8_len(cs@.subrange(0, i as int)),
            lines == newlines(cs@.subrange(0, i as int)),
            bytes <= MAX_SNIPPET_BYTES,
            lines <= MAX_SNIPPET_LINES,
            lines == MAX_SNIPPET_LINES ==> i == cs@.len(),
            first_cut(cs@, 0) == first_cut(cs@, i as int),
        decreases cs@.len() - i,
    {
        let c = cs[i];
        let w = crate::regex::char_width(c);
        assert(cs@.subrange(0, i + 1).drop_last() =~= cs@.subrange(0, i as int));
        assert(cs@.subrange(0, i + 1).last() == c);
        assert(utf8_len(cs@.subrange(0, i + 1)) == bytes + w);
        let over = bytes + w > MAX_SNIPPET_BYTES;
        let tenth = c == '\n' && lines == MAX_SNIPPET_LINES - 1 && i + 1 < cs.len();
        if over || tenth {
            assert(cut_at(cs@, i as int));
            let mut out = crate::scan::slice_chars(&cs, 0, i);
            let marker = if over {
                chars_of("\n    // ... (truncated)")
            } else {
                chars_of("\n    // ...")
            };
            let mut j: usize = 0;
            while j < marker.len()
                invariant
                    j <= marker@.len(),
                    out@ == cs@.subrange(0, i as int) + marker@.subrange(0, j as int),
                decreases marker@.len() - j,
            {
                out.push(marker[j]);
                j = j + 1;
            }
            assert(marker@.subrange(0, marker@.len() as int) =~= marker@);
            proof {
                reveal_strlit("\n    // ... (truncated)");
                reveal_strlit("\n    // ...");
                assert(first_cut(cs@, i as int) == Some(i as int));
                assert(marker@ == byte_marker() || marker@ == line_marker());
            }
            return string_of(out.as_slice());
        }
        assert(!cut_at(cs@, i as int));
        bytes = bytes + w;
        if c == '\n' {
            lines = lines + 1;
        }
        i = i + 1;
    }
    assert(cs@.subrange(0, cs@.len() as int) =~= cs@);
    string_of(cs.as_slice())
}


/// How many files of each family a scan found.
#[derive(Clone, Copy, Debug, Default)]
pub struct ScanStats {
    pub total_files: usize,
    pub rust_files: usize,
    pub python_files: usize,
    pub js_files: usize,
    pub ts_files: usize,
}

/// Number of paths among the first `n` whose language satisfies `f`.
pub open spec fn count_lang(paths: Seq<String>, n: int, f: spec_fn(SupportedLanguage) -> bool) -> nat
    decreases n,
{
    if n <= 0 {
        0
    } else {
        count_lang(paths, n - 1, f) + match language_of_path(paths[n - 1]@) {
            Some(l) => if f(l) {
                1nat
            } else {
                0nat
            },
            None => 0nat,
        }
    }
}

/// Counts the supported files among `paths`, by language family (C-like,
/// Go, Java, C#, Ruby and Swift files count in the total only).
pub fn scan_stats(paths: &Vec<String>) -> (r: ScanStats)
    ensures
        r.total_files == count_lang(paths@, paths@.len() as int, |l: SupportedLanguage| true),
        r.rust_files == count_lang(paths@, paths@.len() as int, |l: SupportedLanguage| l == SupportedLanguage::Rust),
        r.python_files == count_lang(paths@, paths@.len() as int, |l: SupportedLanguage| l == SupportedLanguage::Python),
        r.js_files == count_lang(paths@, paths@.len() as int, |l: SupportedLanguage| l == SupportedLanguage::JavaScript),
        r.ts_files == count_lang(
            paths@,
            paths@.len() as int,
            |l: SupportedLanguage| l == SupportedLanguage::TypeScript || l == SupportedLanguage::Tsx,
        ),
{
    let mut s = ScanStats { total_files: 0, rust_files: 0, python_files: 0, js_files: 0, ts_files: 0 };
    let mut i: usize = 0;
    while i < paths.len()
        invariant
            i <= paths@.len(),
            s.total_files <= i && s.rust_files <= i && s.python_files <= i && s.js_files <= i && s.ts_files <= i,
            s.total_files == count_lang(paths@, i as int, |l: SupportedLanguage| true),
            s.rust_files == count_lang(paths@, i as int, |l: SupportedLanguage| l == SupportedLanguage::Rust),
            s.python_files == count_lang(paths@, i as int, |l: SupportedLanguage| l == SupportedLanguage::Python),
            s.js_files == count_lang(paths@, i as int, |l: SupportedLanguage| l == SupportedLanguage::JavaScript),
            s.ts_files == count_lang(
                paths@,
                i as int,
                |l: SupportedLanguage| l == SupportedLanguage::TypeScript || l == SupportedLanguage::Tsx,
            ),
        decreases paths@.len() - i,
    {
        match SupportedLanguage::from_path(paths[i].as_str()) {
            Some(l) => {
                s.total_files = s.total_files + 1;
                match l {
                    SupportedLanguage::Rust => {
                        s.rust_files = s.rust_files + 1;
                    },
                    SupportedLanguage::Python => {
                        s.python_files = s.python_files + 1;
                    },
                    SupportedLanguage::JavaScript => {
                        s.js_files = s.js_files + 1;
                    },
                    SupportedLanguage::TypeScript | SupportedLanguage::Tsx => {
                        s.ts_files = s.ts_files + 1;
                    },
                    _ => {},
                }
            },
            None => {},
        }
        i = i + 1;
    }
    s
}

} // verus!
