//! A format-preserving model of a manifest document.
//!
//! The document is held as its lines, classified just far enough for the
//! override edits: section headers with their dotted key path, `key = value`
//! entries with their key path, whole-line comments, blank lines, and opaque
//! lines (such as the continuation lines of multi-line values), which pass
//! through untouched.  Serialisation re-emits every line verbatim, which is
//! proved: parsing then serialising returns the input text unchanged.

use vstd::prelude::*;

use crate::paths::str_views;
use crate::text::{
    append_escaped, bare_key_char, esc_str, is_bare_key_char, is_line_ws, line_ws, str_eq,
};

verus! {

/// One line of a manifest document.
#[derive(Debug)]
pub enum Line {
    /// Only whitespace.
    Blank { raw: String },
    /// A whole-line comment.
    Comment { raw: String },
    /// A `[a.b]` or `[[a.b]]` section header.
    Header { raw: String, path: Vec<String>, array: bool },
    /// A `key = value` entry.
    Entry { raw: String, key: Vec<String> },
    /// Anything else; kept verbatim and never matched by the edits.
    Opaque { raw: String },
}

/// The raw text of a line, without its newline.
pub open spec fn line_raw(l: Line) -> Seq<char> {
    match l {
        Line::Blank { raw } => raw@,
        Line::Comment { raw } => raw@,
        Line::Header { raw, .. } => raw@,
        Line::Entry { raw, .. } => raw@,
        Line::Opaque { raw } => raw@,
    }
}

/// The dotted key path of a section header.
pub open spec fn header_path(l: Line) -> Seq<Seq<char>> {
    match l {
        Line::Header { path, .. } => str_views(path@),
        _ => Seq::empty(),
    }
}

/// The dotted key path of an entry.
pub open spec fn entry_key(l: Line) -> Seq<Seq<char>> {
    match l {
        Line::Entry { key, .. } => str_views(key@),
        _ => Seq::empty(),
    }
}

/// A section boundary: any header line.
pub open spec fn is_section_header(l: Line) -> bool {
    l is Header
}

/// A line that reads as leading decoration of what follows it.
pub open spec fn is_decor(l: Line) -> bool {
    l is Blank || l is Comment
}

/// A `[patch.<registry>]` section header.
pub open spec fn is_patch_section(l: Line) -> bool {
    match l {
        Line::Header { path, array, .. } => !array && str_views(path@).len() == 2 && str_views(
            path@,
        )[0] == "patch"@,
        _ => false,
    }
}

/// The `[patch.<registry>]` header of the given registry.
pub open spec fn is_reg_section(l: Line, reg: Seq<char>) -> bool {
    is_patch_section(l) && header_path(l)[1] == reg
}

/// An entry whose key is exactly the given name.
pub open spec fn is_entry_named(l: Line, name: Seq<char>) -> bool {
    match l {
        Line::Entry { key, .. } => str_views(key@) =~= seq![name],
        _ => false,
    }
}

/// A manifest document: its lines, and whether the source text ended with a
/// newline.
#[derive(Debug)]
pub struct Manifest {
    pub lines: Vec<Line>,
    pub ends_nl: bool,
}

impl View for Manifest {
    type V = Seq<Line>;

    open spec fn view(&self) -> Seq<Line> {
        self.lines@
    }
}

impl Manifest {
    /// Whether the document's serialised form ends with a newline.
    pub open spec fn ends_with_newline(&self) -> bool {
        self.ends_nl
    }
}

/// Every line followed by a newline.
pub open spec fn render_all(lines: Seq<Line>) -> Seq<char>
    decreases lines.len(),
{
    if lines.len() == 0 {
        Seq::empty()
    } else {
        line_raw(lines[0]) + seq!['\n'] + render_all(lines.skip(1))
    }
}

/// The document's serialised text: every line with a newline, the final
/// newline dropped when the source had none.
pub open spec fn render_doc(lines: Seq<Line>, nl: bool) -> Seq<char> {
    if nl || lines.len() == 0 {
        render_all(lines)
    } else {
        render_all(lines).drop_last()
    }
}

/// Rendering grows at the end, one line at a time.
pub proof fn lemma_render_all_snoc(v: Seq<Line>, x: Line)
    ensures
        render_all(v.push(x)) == render_all(v) + line_raw(x) + seq!['\n'],
    decreases v.len(),
{
    if v.len() == 0 {
        assert(v.push(x).len() == 1);
        assert(v.push(x)[0] == x);
        assert(v.push(x).skip(1) =~= Seq::<Line>::empty());
        assert(render_all(v.push(x)) == line_raw(x) + seq!['\n'] + render_all(
            Seq::<Line>::empty(),
        ));
        assert(render_all(v.push(x)) =~= render_all(v) + line_raw(x) + seq!['\n']);
    } else {
        assert(v.push(x)[0] == v[0]);
        assert(v.push(x).skip(1) =~= v.skip(1).push(x));
        lemma_render_all_snoc(v.skip(1), x);
        assert(render_all(v.push(x)) == line_raw(v[0]) + seq!['\n'] + render_all(
            v.skip(1).push(x),
        ));
        assert(render_all(v.push(x)) =~= render_all(v) + line_raw(x) + seq!['\n']);
    }
}

/// Rendering a non-empty document yields at least one character.
pub proof fn lemma_render_all_len(lines: Seq<Line>)
    requires
        lines.len() > 0,
    ensures
        render_all(lines).len() >= 1,
        render_all(lines).last() == '\n',
    decreases lines.len(),
{
    if lines.len() == 1 {
        assert(render_all(lines.skip(1)) == Seq::<char>::empty());
    } else {
        lemma_render_all_len(lines.skip(1));
    }
}

/// The document is not valid enough to edit: the line that stopped the
/// parser.
#[derive(Debug)]
pub struct ParseError {
    pub line: usize,
}

/// Some line of `s` opens with `[` (after optional whitespace): a section
/// header candidate, the only line form the parser may reject.
pub open spec fn bracket_line_at(s: Seq<char>, i: int, j: int) -> bool {
    0 <= i <= j < s.len() && (i == 0 || s[i - 1] == '\n') && (forall|k: int|
        i <= k < j ==> is_line_ws(s[k])) && s[j] == '['
}

/// Some line of `s` opens with `[` (after optional whitespace): a section
/// header candidate, the only line form the parser may reject.
pub open spec fn has_bracket_line(s: Seq<char>) -> bool {
    exists|i: int, j: int| #[trigger] bracket_line_at(s, i, j)
}

/// Move past spaces, tabs and carriage returns.
fn skip_ws(s: &str, from: usize) -> (r: usize)
    requires
        from <= s@.len(),
    ensures
        from <= r <= s@.len(),
        forall|j: int| from <= j < r ==> is_line_ws(s@[j]),
        r < s@.len() ==> !is_line_ws(s@[r as int]),
{
    let n = s.unicode_len();
    let mut i = from;
    while i < n && line_ws(s.get_char(i))
        invariant
            from <= i <= n,
            n == s@.len(),
            forall|j: int| from <= j < i ==> is_line_ws(s@[j]),
        decreases n - i,
    {
        i = i + 1;
    }
    i
}

/// Parse one key segment: bare, basic-quoted or literal-quoted.  Yields the
/// segment's text and the position after it.
fn parse_key_segment(s: &str, from: usize) -> (r: Option<(String, usize)>)
    requires
        from <= s@.len(),
    ensures
        r matches Some((_, j)) ==> from < j <= s@.len(),
{
    let n = s.unicode_len();
    if from >= n {
        return None;
    }
    let c = s.get_char(from);
    if c == '"' {
        // basic string with the common escapes
        let mut out = String::new();
        let mut j = from + 1;
        while j < n
            invariant
                from < j <= n,
                n == s@.len(),
            decreases n - j,
        {
            let c = s.get_char(j);
            if c == '"' {
                return Some((out, j + 1));
            } else if c == '\\' {
                if j + 1 >= n {
                    return None;
                }
                let e = s.get_char(j + 1);
                if e == '"' {
                    out.append("\"");
                } else if e == '\\' {
                    out.append("\\");
                } else if e == 'n' {
                    out.append("\n");
                } else if e == 't' {
                    out.append("\t");
                } else if e == 'r' {
                    out.append("\r");
                } else {
                    return None;
                }
                j = j + 2;
            } else {
                let piece = s.substring_char(j, j + 1);
                out.append(piece);
                j = j + 1;
            }
        }
        None
    } else if c == '\'' {
        // literal string: no escapes
        let mut j = from + 1;
        while j < n
            invariant
                from < j <= n,
                n == s@.len(),
            decreases n - j,
        {
            if s.get_char(j) == '\'' {
                let seg = s.substring_char(from + 1, j);
                return Some((seg.to_owned(), j + 1));
            }
            j = j + 1;
        }
        None
    } else if bare_key_char(c) {
        let mut j = from + 1;
        while j < n && bare_key_char(s.get_char(j))
            invariant
                from < j <= n,
                n == s@.len(),
            decreases n - j,
        {
            j = j + 1;
        }
        let seg = s.substring_char(from, j);
        Some((seg.to_owned(), j))
    } else {
        None
    }
}

/// Parse a dotted key path starting at `from`, whitespace allowed around the
/// dots.  Yields the segments and the position of the first character after
/// the path and its trailing whitespace.
fn parse_key_path_into(s: &str, from: usize, segs: &mut Vec<String>) -> (r: Option<usize>)
    requires
        from <= s@.len(),
    ensures
        r matches Some(j) ==> from < j <= s@.len() && final(segs)@.len() > old(segs)@.len(),
    decreases s@.len() - from,
{
    let n = s.unicode_len();
    let start = skip_ws(s, from);
    match parse_key_segment(s, start) {
        Some((seg, j)) => {
            segs.push(seg);
            let after = skip_ws(s, j);
            if after < n && s.get_char(after) == '.' {
                parse_key_path_into(s, after + 1, segs)
            } else {
                Some(after)
            }
        },
        None => None,
    }
}

fn parse_key_path(s: &str, from: usize) -> (r: Option<(Vec<String>, usize)>)
    requires
        from <= s@.len(),
    ensures
        r matches Some((path, j)) ==> from < j <= s@.len() && path@.len() >= 1,
{
    let mut segs: Vec<String> = Vec::new();
    match parse_key_path_into(s, from, &mut segs) {
        Some(j) => Some((segs, j)),
        None => None,
    }
}

/// Classify one line of text.  Only a malformed bracketed header line is
/// rejected.
fn classify(piece: &str, line_no: usize) -> (r: Result<Line, ParseError>)
    ensures
        r matches Ok(l) ==> line_raw(l) == piece@,
        r is Err ==> exists|j: int|
            #![auto]
            0 <= j < piece@.len() && (forall|k: int| 0 <= k < j ==> is_line_ws(piece@[k]))
                && piece@[j] == '[',
{
    let n = piece.unicode_len();
    let i = skip_ws(piece, 0);
    if i == n {
        return Ok(Line::Blank { raw: piece.to_owned() });
    }
    let c = piece.get_char(i);
    if c == '#' {
        return Ok(Line::Comment { raw: piece.to_owned() });
    }
    if c == '[' {
        let mut j = i + 1;
        let array = j < n && piece.get_char(j) == '[';
        if array {
            j = j + 1;
        }
        if j > n {
            return Err(ParseError { line: line_no });
        }
        match parse_key_path(piece, j) {
            Some((path, k)) => {
                if k < n && piece.get_char(k) == ']' {
                    let mut k2 = k + 1;
                    if array {
                        if k2 < n && piece.get_char(k2) == ']' {
                            k2 = k2 + 1;
                        } else {
                            return Err(ParseError { line: line_no });
                        }
                    }
                    let k3 = skip_ws(piece, k2);
                    if k3 < n && piece.get_char(k3) != '#' {
                        return Err(ParseError { line: line_no });
                    }
                    Ok(Line::Header { raw: piece.to_owned(), path, array })
                } else {
                    Err(ParseError { line: line_no })
                }
            },
            None => Err(ParseError { line: line_no }),
        }
    } else {
        match parse_key_path(piece, i) {
            Some((key, k)) => {
                if k < n && piece.get_char(k) == '=' {
                    Ok(Line::Entry { raw: piece.to_owned(), key })
                } else {
                    Ok(Line::Opaque { raw: piece.to_owned() })
                }
            },
            None => Ok(Line::Opaque { raw: piece.to_owned() }),
        }
    }
}

impl Manifest {
    /// Parse a manifest's text into its line model.  The text is preserved:
    /// serialising the parsed document returns it unchanged.
    pub fn parse(s: &str) -> (r: Result<Manifest, ParseError>)
        ensures
            r matches Ok(m) ==> render_doc(m@, m.ends_with_newline()) == s@,
            r is Err ==> has_bracket_line(s@),
    {
        proof {
            reveal_strlit("\n");
        }
        let n = s.unicode_len();
        let mut lines: Vec<Line> = Vec::new();
        let mut pos: usize = 0;
        while pos < n
            invariant
                pos <= n,
                n == s@.len(),
                pos == 0 || s@[pos - 1] == '\n',
                render_all(lines@) == s@.take(pos as int),
            decreases n - pos,
        {
            let rest = s.substring_char(pos, n);
            proof {
                assert(rest@ =~= s@.skip(pos as int));
            }
            match crate::text::find_first(rest, "\n") {
                Some(k) => {
                    let piece = rest.substring_char(0, k);
                    let l = match classify(piece, lines.len()) {
                        Ok(l) => l,
                        Err(e) => {
                            proof {
                                assert(piece@ =~= rest@.subrange(0, k as int));
                                let j = choose|j: int|
                                    #![auto]
                                    0 <= j < piece@.len() && (forall|m: int|
                                        0 <= m < j ==> is_line_ws(piece@[m])) && piece@[j] == '[';
                                assert(bracket_line_at(s@, pos as int, pos + j)) by {
                                    assert(forall|m: int|
                                        pos <= m < pos + j ==> s@[m] == piece@[m - pos]);
                                }
                            }
                            return Err(e);
                        },
                    };
                    let ghost prev = lines@;
                    lines.push(l);
                    proof {
                        reveal_strlit("\n");
                        lemma_render_all_snoc(prev, l);
                        assert(crate::text::first_occ(rest@, "\n"@) == Some(k as int));
                        crate::text::lemma_first_occ_is_match(rest@, "\n"@);
                        assert(crate::text::first_occ(rest@, "\n"@).unwrap() == k as int);
                        assert("\n"@.len() == 1);
                        assert(rest@.subrange(k as int, k + 1 as int) == "\n"@);
                        assert(rest@.subrange(k as int, k + 1 as int)[0] == rest@[k as int]);
                        assert(rest@[k as int] == '\n');
                        assert(s@[pos + k] == '\n');
                        assert(piece@ =~= rest@.subrange(0, k as int));
                        assert(piece@ =~= s@.subrange(pos as int, pos + k));
                        assert(s@.take(pos + k + 1 as int) =~= s@.take(pos as int) + s@.subrange(
                            pos as int,
                            pos + k,
                        ) + seq!['\n']);
                        assert(render_all(lines@) == s@.take(pos + k + 1 as int));
                    }
                    pos = pos + k + 1;
                },
                None => {
                    // final line without a newline
                    let l = match classify(rest, lines.len()) {
                        Ok(l) => l,
                        Err(e) => {
                            proof {
                                let j = choose|j: int|
                                    #![auto]
                                    0 <= j < rest@.len() && (forall|m: int|
                                        0 <= m < j ==> is_line_ws(rest@[m])) && rest@[j] == '[';
                                assert(bracket_line_at(s@, pos as int, pos + j)) by {
                                    assert(forall|m: int|
                                        pos <= m < pos + j ==> s@[m] == rest@[m - pos]);
                                }
                            }
                            return Err(e);
                        },
                    };
                    let ghost prev = lines@;
                    lines.push(l);
                    proof {
                        reveal_strlit("\n");
                        lemma_render_all_snoc(prev, l);
                        assert(rest@ =~= s@.subrange(pos as int, n as int));
                        assert(render_all(lines@) =~= s@ + seq!['\n']);
                        assert(lines@.len() > 0);
                        assert(render_all(lines@).drop_last() =~= s@);
                    }
                    return Ok(Manifest { lines, ends_nl: false });
                },
            }
        }
        proof {
            assert(s@.take(n as int) =~= s@);
        }
        if lines.len() == 0 {
            Ok(Manifest { lines, ends_nl: false })
        } else {
            Ok(Manifest { lines, ends_nl: true })
        }
    }

    /// Serialise the document: each line verbatim, with its newline.
    pub fn serialize(&self) -> (r: String)
        ensures
            r@ == render_doc(self@, self.ends_with_newline()),
    {
        proof {
            reveal_strlit("\n");
        }
        let mut out = String::new();
        let mut i: usize = 0;
        while i < self.lines.len()
            invariant
                i <= self.lines@.len(),
                out@ == render_all(self.lines@.take(i as int)),
            decreases self.lines@.len() - i,
        {
            match &self.lines[i] {
                Line::Blank { raw } => {
                    out.append(raw.as_str());
                    proof {
                        assert(raw@ == line_raw(self.lines@[i as int]));
                    }
                },
                Line::Comment { raw } => {
                    out.append(raw.as_str());
                    proof {
                        assert(raw@ == line_raw(self.lines@[i as int]));
                    }
                },
                Line::Header { raw, .. } => {
                    out.append(raw.as_str());
                    proof {
                        assert(raw@ == line_raw(self.lines@[i as int]));
                    }
                },
                Line::Entry { raw, .. } => {
                    out.append(raw.as_str());
                    proof {
                        assert(raw@ == line_raw(self.lines@[i as int]));
                    }
                },
                Line::Opaque { raw } => {
                    out.append(raw.as_str());
                    proof {
                        assert(raw@ == line_raw(self.lines@[i as int]));
                    }
                },
            }
            out.append("\n");
            proof {
                reveal_strlit("\n");
                let v = self.lines@;
                assert(v.take(i + 1 as int) =~= v.take(i as int).push(v[i as int]));
                lemma_render_all_snoc(v.take(i as int), v[i as int]);
            }
            i = i + 1;
        }
        proof {
            assert(self.lines@.take(self.lines@.len() as int) =~= self.lines@);
        }
        if self.ends_nl || self.lines.len() == 0 {
            out
        } else {
            proof {
                lemma_render_all_len(self.lines@);
            }
            let m = out.as_str().unicode_len();
            let trimmed = out.as_str().substring_char(0, m - 1);
            proof {
                assert(trimmed@ =~= render_all(self.lines@).drop_last());
            }
            trimmed.to_owned()
        }
    }
}

} // verus!
