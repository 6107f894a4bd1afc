//! The structural override edits: adding an entry under `[patch.<registry>]`
//! and removing an entry wherever it stands, pruning a sub-table emptied by
//! the removal, while every untouched line is kept verbatim.

use vstd::prelude::*;

use crate::encode::{InlineField, InlineRecord};
use crate::manifest::{
    entry_key, header_path, is_decor, is_entry_named, is_patch_section, is_reg_section,
    is_section_header, line_raw, render_doc, Line, Manifest,
};
use crate::paths::str_views;
use crate::text::{append_escaped, bare_key_char, esc_str, is_bare_key_char, str_eq};

verus! {

/// First entry named `name` at or after `j`, stopping at the next section
/// boundary.
pub open spec fn first_entry_from(lines: Seq<Line>, j: int, name: Seq<char>) -> Option<int>
    decreases lines.len() - j,
{
    if j < 0 || j >= lines.len() {
        None
    } else if is_section_header(lines[j]) {
        None
    } else if is_entry_named(lines[j], name) {
        Some(j)
    } else {
        first_entry_from(lines, j + 1, name)
    }
}

/// First entry of any name at or after `j`, stopping at the next section
/// boundary.
pub open spec fn first_any_entry_from(lines: Seq<Line>, j: int) -> Option<int>
    decreases lines.len() - j,
{
    if j < 0 || j >= lines.len() {
        None
    } else if is_section_header(lines[j]) {
        None
    } else if lines[j] is Entry {
        Some(j)
    } else {
        first_any_entry_from(lines, j + 1)
    }
}

/// First `[patch.<reg>]` header at or after `j`.
pub open spec fn first_reg_section(lines: Seq<Line>, j: int, reg: Seq<char>) -> Option<int>
    decreases lines.len() - j,
{
    if j < 0 || j >= lines.len() {
        None
    } else if is_reg_section(lines[j], reg) {
        Some(j)
    } else {
        first_reg_section(lines, j + 1, reg)
    }
}

/// First `[patch.*]` header at or after `j` whose section holds an entry
/// named `name`.
pub open spec fn first_section_with(lines: Seq<Line>, j: int, name: Seq<char>) -> Option<int>
    decreases lines.len() - j,
{
    if j < 0 || j >= lines.len() {
        None
    } else if is_patch_section(lines[j]) && first_entry_from(lines, j + 1, name) is Some {
        Some(j)
    } else {
        first_section_with(lines, j + 1, name)
    }
}

/// Start of the run of blank and comment lines directly above `h`: the
/// decoration that the document model attaches to the line at `h`.
pub open spec fn decor_start(lines: Seq<Line>, h: int) -> int
    decreases h,
{
    if h <= 0 {
        h
    } else if h > lines.len() {
        h
    } else if is_decor(lines[h - 1]) {
        decor_start(lines, h - 1)
    } else {
        h
    }
}

/// Last entry or opaque line of the section running from `j`, if any.
pub open spec fn last_content_from(lines: Seq<Line>, j: int) -> Option<int>
    decreases lines.len() - j,
{
    if j < 0 || j >= lines.len() {
        None
    } else if is_section_header(lines[j]) {
        None
    } else {
        match last_content_from(lines, j + 1) {
            Some(k) => Some(k),
            None => if lines[j] is Entry || lines[j] is Opaque {
                Some(j)
            } else {
                None
            },
        }
    }
}

/// Where a new entry of the section headed at `h` is inserted: after its
/// last entry (or opaque line), or directly after the header when it has
/// none.
pub open spec fn insert_pos(lines: Seq<Line>, h: int) -> int {
    match last_content_from(lines, h + 1) {
        Some(k) => k + 1,
        None => h + 1,
    }
}

/// A top-level `patch = …` (or `patch.… = …`) entry: the `patch` key exists
/// but is not a table.
pub open spec fn top_level_bad(lines: Seq<Line>) -> bool {
    exists|i: int|
        #![auto]
        0 <= i < lines.len() && (forall|k: int| 0 <= k < i ==> !is_section_header(lines[k]))
            && lines[i] is Entry && entry_key(lines[i]).len() >= 1 && entry_key(lines[i])[0]
            == "patch"@
}

/// A header that leaves the `patch` key unusable as a table of sub-tables: an
/// array-of-tables header under `patch`, or a bare `[patch]` section holding
/// entries directly.
pub open spec fn bad_header_at(lines: Seq<Line>, h: int) -> bool {
    match lines[h] {
        Line::Header { path, array, .. } => {
            let p = str_views(path@);
            p.len() >= 1 && p[0] == "patch"@ && (array || (p.len() == 1 && first_any_entry_from(
                lines,
                h + 1,
            ) is Some))
        },
        _ => false,
    }
}

/// The `patch` key cannot be edited as a table of per-registry sub-tables.
pub open spec fn bad_patch_shape(lines: Seq<Line>) -> bool {
    top_level_bad(lines) || exists|h: int| 0 <= h < lines.len() && #[trigger] bad_header_at(
        lines,
        h,
    )
}

/// The entry at `e` is the only entry of the section headed at `h`.
pub open spec fn sole_entry(lines: Seq<Line>, h: int, e: int) -> bool {
    first_any_entry_from(lines, h + 1) == Some(e) && first_any_entry_from(lines, e + 1) is None
}

// ------------------------------------------------------------------
// executable mirrors of the scans
// ------------------------------------------------------------------
fn line_is_entry_named(l: &Line, name: &str) -> (r: bool)
    ensures
        r == is_entry_named(*l, name@),
{
    match l {
        Line::Entry { key, .. } => {
            if key.len() == 1 && str_eq(key[0].as_str(), name) {
                proof {
                    assert(str_views(key@) =~= seq![name@]);
                }
                true
            } else {
                proof {
                    if is_entry_named(*l, name@) {
                        assert(str_views(key@) =~= seq![name@]);
                        assert(str_views(key@)[0] == key@[0]@);
                    }
                }
                false
            }
        },
        _ => false,
    }
}

fn line_is_patch_section(l: &Line) -> (r: bool)
    ensures
        r == is_patch_section(*l),
{
    match l {
        Line::Header { path, array, .. } => {
            if !*array && path.len() == 2 && str_eq(path[0].as_str(), "patch") {
                proof {
                    assert(str_views(path@).len() == 2);
                    assert(str_views(path@)[0] == path@[0]@);
                }
                true
            } else {
                proof {
                    if is_patch_section(*l) {
                        assert(str_views(path@)[0] == path@[0]@);
                    }
                }
                false
            }
        },
        _ => false,
    }
}

fn line_is_reg_section(l: &Line, reg: &str) -> (r: bool)
    ensures
        r == is_reg_section(*l, reg@),
{
    match l {
        Line::Header { path, .. } => {
            if line_is_patch_section(l) {
                proof {
                    assert(header_path(*l) == str_views(path@));
                    assert(str_views(path@)[1] == path@[1]@);
                }
                str_eq(path[1].as_str(), reg)
            } else {
                false
            }
        },
        _ => false,
    }
}

fn first_entry_from_exec(lines: &Vec<Line>, j: usize, name: &str) -> (r: Option<usize>)
    requires
        j <= lines@.len(),
    ensures
        match r {
            Some(e) => first_entry_from(lines@, j as int, name@) == Some(e as int) && j <= e
                < lines@.len(),
            None => first_entry_from(lines@, j as int, name@) is None,
        },
    decreases lines@.len() - j,
{
    if j == lines.len() {
        return None;
    }
    match &lines[j] {
        Line::Header { .. } => None,
        _ => {
            if line_is_entry_named(&lines[j], name) {
                Some(j)
            } else {
                first_entry_from_exec(lines, j + 1, name)
            }
        },
    }
}

fn first_any_entry_from_exec(lines: &Vec<Line>, j: usize) -> (r: Option<usize>)
    requires
        j <= lines@.len(),
    ensures
        match r {
            Some(e) => first_any_entry_from(lines@, j as int) == Some(e as int) && j <= e
                < lines@.len(),
            None => first_any_entry_from(lines@, j as int) is None,
        },
    decreases lines@.len() - j,
{
    if j == lines.len() {
        return None;
    }
    match &lines[j] {
        Line::Header { .. } => None,
        Line::Entry { .. } => Some(j),
        _ => first_any_entry_from_exec(lines, j + 1),
    }
}

fn first_reg_section_exec(lines: &Vec<Line>, j: usize, reg: &str) -> (r: Option<usize>)
    requires
        j <= lines@.len(),
    ensures
        match r {
            Some(h) => first_reg_section(lines@, j as int, reg@) == Some(h as int) && j <= h
                < lines@.len(),
            None => first_reg_section(lines@, j as int, reg@) is None,
        },
    decreases lines@.len() - j,
{
    if j == lines.len() {
        return None;
    }
    if line_is_reg_section(&lines[j], reg) {
        Some(j)
    } else {
        first_reg_section_exec(lines, j + 1, reg)
    }
}

fn first_section_with_exec(lines: &Vec<Line>, j: usize, name: &str) -> (r: Option<usize>)
    requires
        j <= lines@.len(),
    ensures
        match r {
            Some(h) => first_section_with(lines@, j as int, name@) == Some(h as int) && j <= h
                < lines@.len(),
            None => first_section_with(lines@, j as int, name@) is None,
        },
    decreases lines@.len() - j,
{
    if j == lines.len() {
        return None;
    }
    if line_is_patch_section(&lines[j]) {
        match first_entry_from_exec(lines, j + 1, name) {
            Some(_) => {
                return Some(j);
            },
            None => {},
        }
        first_section_with_exec(lines, j + 1, name)
    } else {
        first_section_with_exec(lines, j + 1, name)
    }
}

fn decor_start_exec(lines: &Vec<Line>, h: usize) -> (r: usize)
    requires
        h <= lines@.len(),
    ensures
        r == decor_start(lines@, h as int),
        r <= h,
    decreases h,
{
    if h == 0 {
        return 0;
    }
    match &lines[h - 1] {
        Line::Blank { .. } => decor_start_exec(lines, h - 1),
        Line::Comment { .. } => decor_start_exec(lines, h - 1),
        _ => h,
    }
}

fn last_content_from_exec(lines: &Vec<Line>, j: usize) -> (r: Option<usize>)
    requires
        j <= lines@.len(),
    ensures
        match r {
            Some(k) => last_content_from(lines@, j as int) == Some(k as int) && j <= k
                < lines@.len(),
            None => last_content_from(lines@, j as int) is None,
        },
    decreases lines@.len() - j,
{
    if j == lines.len() {
        return None;
    }
    match &lines[j] {
        Line::Header { .. } => None,
        _ => {
            match last_content_from_exec(lines, j + 1) {
                Some(k) => Some(k),
                None => {
                    match &lines[j] {
                        Line::Entry { .. } => Some(j),
                        Line::Opaque { .. } => Some(j),
                        _ => None,
                    }
                },
            }
        },
    }
}

/// Whether the document's `patch` key cannot be edited as a table.
fn bad_patch_shape_exec(lines: &Vec<Line>) -> (r: bool)
    ensures
        r == bad_patch_shape(lines@),
{
    let mut i: usize = 0;
    let mut seen_header = false;
    while i < lines.len()
        invariant
            i <= lines@.len(),
            seen_header == exists|k: int| 0 <= k < i && is_section_header(lines@[k]),
            forall|k: int|
                0 <= k < i ==> !((forall|m: int| 0 <= m < k ==> !is_section_header(lines@[m]))
                    && lines@[k] is Entry && entry_key(lines@[k]).len() >= 1 && entry_key(
                    lines@[k],
                )[0] == "patch"@),
            forall|k: int| 0 <= k < i ==> !bad_header_at(lines@, k),
        decreases lines@.len() - i,
    {
        match &lines[i] {
            Line::Entry { key, .. } => {
                if !seen_header && key.len() >= 1 && str_eq(key[0].as_str(), "patch") {
                    proof {
                        assert(entry_key(lines@[i as int])[0] == key@[0]@);
                    }
                    return true;
                }
                proof {
                    if key@.len() >= 1 {
                        assert(entry_key(lines@[i as int])[0] == key@[0]@);
                    }
                }
            },
            Line::Header { path, array, .. } => {
                if path.len() >= 1 && str_eq(path[0].as_str(), "patch") {
                    proof {
                        assert(str_views(path@)[0] == path@[0]@);
                    }
                    if *array {
                        proof {
                            assert(bad_header_at(lines@, i as int));
                        }
                        return true;
                    }
                    if path.len() == 1 {
                        match first_any_entry_from_exec(lines, i + 1) {
                            Some(_) => {
                                proof {
                                    assert(bad_header_at(lines@, i as int));
                                }
                                return true;
                            },
                            None => {},
                        }
                    }
                } else {
                    proof {
                        if str_views(path@).len() >= 1 {
                            assert(str_views(path@)[0] == path@[0]@);
                        }
                    }
                }
                seen_header = true;
            },
            _ => {},
        }
        i = i + 1;
    }
    proof {
        if bad_patch_shape(lines@) {
            if top_level_bad(lines@) {
                let k = choose|k: int|
                    #![auto]
                    0 <= k < lines@.len() && (forall|m: int|
                        0 <= m < k ==> !is_section_header(lines@[m])) && lines@[k] is Entry
                        && entry_key(lines@[k]).len() >= 1 && entry_key(lines@[k])[0] == "patch"@;
                assert(false);
            } else {
                let h = choose|h: int|
                    0 <= h < lines@.len() && #[trigger] bad_header_at(lines@, h);
                assert(false);
            }
        }
    }
    false
}

// ------------------------------------------------------------------
// rendering of new lines
// ------------------------------------------------------------------
/// A key that may stand unquoted.
pub open spec fn bare_ok(n: Seq<char>) -> bool {
    n.len() > 0 && forall|i: int| 0 <= i < n.len() ==> is_bare_key_char(n[i])
}

/// A key as written in the document: bare when possible, else quoted.
pub open spec fn key_txt(n: Seq<char>) -> Seq<char> {
    if bare_ok(n) {
        n
    } else {
        seq!['"'] + esc_str(n) + seq!['"']
    }
}

/// One `key = "value"` pair of an inline table.
pub open spec fn pair_txt(f: InlineField) -> Seq<char> {
    key_txt(f.name@) + " = \""@ + esc_str(f.value@) + "\""@
}

/// The pairs after the first, each preceded by a comma.
pub open spec fn rest_txt(fs: Seq<InlineField>) -> Seq<char>
    decreases fs.len(),
{
    if fs.len() == 0 {
        Seq::empty()
    } else {
        ", "@ + pair_txt(fs[0]) + rest_txt(fs.skip(1))
    }
}

/// The serialised inline table.
pub open spec fn inline_txt(fs: Seq<InlineField>) -> Seq<char> {
    if fs.len() == 0 {
        "{ }"@
    } else {
        "{ "@ + pair_txt(fs[0]) + rest_txt(fs.skip(1)) + " }"@
    }
}

/// The full text of an override entry line.
pub open spec fn entry_raw_spec(name: Seq<char>, fs: Seq<InlineField>) -> Seq<char> {
    key_txt(name) + " = "@ + inline_txt(fs)
}

/// The full text of a `[patch.<registry>]` header line.
pub open spec fn header_raw_spec(reg: Seq<char>) -> Seq<char> {
    "[patch."@ + key_txt(reg) + "]"@
}

fn bare_ok_exec(s: &str) -> (r: bool)
    ensures
        r == bare_ok(s@),
{
    let n = s.unicode_len();
    if n == 0 {
        return false;
    }
    let mut i: usize = 0;
    while i < n
        invariant
            i <= n,
            n == s@.len(),
            forall|j: int| 0 <= j < i ==> is_bare_key_char(s@[j]),
        decreases n - i,
    {
        if !bare_key_char(s.get_char(i)) {
            return false;
        }
        i = i + 1;
    }
    true
}

/// Append a key, quoting it when it cannot stand bare.
fn append_key(out: &mut String, s: &str)
    ensures
        final(out)@ == old(out)@ + key_txt(s@),
{
    if bare_ok_exec(s) {
        out.append(s);
    } else {
        out.append("\"");
        append_escaped(out, s);
        out.append("\"");
        proof {
            reveal_strlit("\"");
            assert(out@ =~= old(out)@ + (seq!['"'] + esc_str(s@) + seq!['"']));
        }
    }
}

/// Append one `key = "value"` pair.
fn append_pair(out: &mut String, f: &InlineField)
    ensures
        final(out)@ == old(out)@ + pair_txt(*f),
{
    append_key(out, f.name.as_str());
    out.append(" = \"");
    append_escaped(out, f.value.as_str());
    out.append("\"");
    proof {
        assert(out@ =~= old(out)@ + pair_txt(*f));
    }
}

/// Pair lists grow at their end.
proof fn lemma_rest_txt_snoc(v: Seq<InlineField>, x: InlineField)
    ensures
        rest_txt(v.push(x)) == rest_txt(v) + ", "@ + pair_txt(x),
    decreases v.len(),
{
    if v.len() == 0 {
        assert(v.push(x)[0] == x);
        assert(v.push(x).skip(1) =~= Seq::<InlineField>::empty());
        assert(rest_txt(v.push(x)) == ", "@ + pair_txt(x) + rest_txt(Seq::<InlineField>::empty()));
        assert(rest_txt(v.push(x)) =~= rest_txt(v) + ", "@ + pair_txt(x));
    } else {
        assert(v.push(x)[0] == v[0]);
        assert(v.push(x).skip(1) =~= v.skip(1).push(x));
        lemma_rest_txt_snoc(v.skip(1), x);
        assert(rest_txt(v.push(x)) == ", "@ + pair_txt(v[0]) + rest_txt(v.skip(1).push(x)));
        assert(rest_txt(v.push(x)) =~= rest_txt(v) + ", "@ + pair_txt(x));
    }
}

/// Build the entry line for an override.
fn render_entry_line(name: &str, rec: &InlineRecord) -> (r: Line)
    ensures
        is_entry_named(r, name@),
        line_raw(r) == entry_raw_spec(name@, rec.fields@),
{
    let mut out = String::new();
    append_key(&mut out, name);
    out.append(" = ");
    if rec.fields.len() == 0 {
        out.append("{ }");
        proof {
            assert(out@ =~= entry_raw_spec(name@, rec.fields@));
        }
    } else {
        out.append("{ ");
        append_pair(&mut out, &rec.fields[0]);
        let mut i: usize = 1;
        while i < rec.fields.len()
            invariant
                1 <= i <= rec.fields@.len(),
                out@ == key_txt(name@) + " = "@ + "{ "@ + pair_txt(rec.fields@[0]) + rest_txt(
                    rec.fields@.subrange(1, i as int),
                ),
            decreases rec.fields@.len() - i,
        {
            out.append(", ");
            append_pair(&mut out, &rec.fields[i]);
            proof {
                assert(rec.fields@.subrange(1, i + 1 as int) =~= rec.fields@.subrange(
                    1,
                    i as int,
                ).push(rec.fields@[i as int]));
                lemma_rest_txt_snoc(rec.fields@.subrange(1, i as int), rec.fields@[i as int]);
                assert(out@ =~= key_txt(name@) + " = "@ + "{ "@ + pair_txt(rec.fields@[0])
                    + rest_txt(rec.fields@.subrange(1, i + 1 as int)));
            }
            i = i + 1;
        }
        out.append(" }");
        proof {
            assert(rec.fields@.subrange(1, rec.fields@.len() as int) =~= rec.fields@.skip(1));
            assert(out@ =~= entry_raw_spec(name@, rec.fields@));
        }
    }
    let mut key: Vec<String> = Vec::new();
    key.push(name.to_owned());
    let l = Line::Entry { raw: out, key };
    proof {
        assert(entry_key(l) =~= seq![name@]);
    }
    l
}

/// Build the header line of a new `[patch.<registry>]` section.
fn render_header_line(reg: &str) -> (r: Line)
    ensures
        is_reg_section(r, reg@),
        !(r matches Line::Header { array, .. } && array),
        line_raw(r) == header_raw_spec(reg@),
{
    let mut out = String::new();
    out.append("[patch.");
    append_key(&mut out, reg);
    out.append("]");
    proof {
        assert(out@ =~= header_raw_spec(reg@));
    }
    let mut path: Vec<String> = Vec::new();
    path.push("patch".to_owned());
    path.push(reg.to_owned());
    let l = Line::Header { raw: out, path, array: false };
    proof {
        assert(header_path(l) =~= seq!["patch"@, reg@]);
        assert(is_patch_section(l)) by {
            assert(header_path(l).len() == 2);
            assert(header_path(l)[0] == "patch"@);
        }
    }
    l
}

// ------------------------------------------------------------------
// the edits
// ------------------------------------------------------------------
/// Failure mode of the structural edits.
#[derive(Debug)]
pub enum PatchError {
    /// The `patch` key already exists in the document but is not a table of
    /// per-registry sub-tables.
    NotATable,
}

/// A line holding the override entry for `name` with the given fields.
pub open spec fn entry_line_for(l: Line, name: Seq<char>, fields: Seq<InlineField>) -> bool {
    is_entry_named(l, name) && line_raw(l) == entry_raw_spec(name, fields)
}

/// What a successful add leaves behind: the entry overwritten in place when
/// the name already stood in the registry's section; inserted after the
/// section's last entry when the section existed; or a fresh section (blank
/// separator, header, entry) appended at the end.
pub open spec fn add_post(
    old_l: Seq<Line>,
    new_l: Seq<Line>,
    reg: Seq<char>,
    name: Seq<char>,
    fields: Seq<InlineField>,
) -> bool {
    match first_reg_section(old_l, 0, reg) {
        Some(h) => match first_entry_from(old_l, h + 1, name) {
            Some(e) => new_l.len() == old_l.len() && (forall|j: int|
                0 <= j < old_l.len() && j != e ==> new_l[j] == old_l[j]) && entry_line_for(
                new_l[e],
                name,
                fields,
            ),
            None => {
                let p = insert_pos(old_l, h);
                new_l.len() == old_l.len() + 1 && new_l == old_l.insert(p, new_l[p])
                    && entry_line_for(new_l[p], name, fields)
            },
        },
        None => if old_l.len() == 0 {
            new_l.len() == 2 && is_reg_section(new_l[0], reg) && line_raw(new_l[0])
                == header_raw_spec(reg) && entry_line_for(new_l[1], name, fields)
        } else {
            new_l.len() == old_l.len() + 3 && new_l.take(old_l.len() as int) == old_l
                && new_l[old_l.len() as int] is Blank && line_raw(new_l[old_l.len() as int])
                == Seq::<char>::empty() && is_reg_section(new_l[old_l.len() as int + 1], reg) && line_raw(
                new_l[old_l.len() as int + 1],
            ) == header_raw_spec(reg) && entry_line_for(new_l[old_l.len() as int + 2], name, fields)
        },
    }
}

/// What a successful removal leaves behind: the first matching entry of the
/// first patch section holding the name is removed; when it was the
/// section's only entry, the section's header and its leading decoration go
/// with it.
pub open spec fn remove_post(old_l: Seq<Line>, new_l: Seq<Line>, name: Seq<char>) -> bool {
    match first_section_with(old_l, 0, name) {
        Some(h) => match first_entry_from(old_l, h + 1, name) {
            Some(e) => if sole_entry(old_l, h, e) {
                new_l == old_l.subrange(0, decor_start(old_l, h)) + old_l.subrange(
                    e + 1,
                    old_l.len() as int,
                )
            } else {
                new_l == old_l.remove(e)
            },
            None => false,
        },
        None => false,
    }
}

/// A found section indeed is a patch section holding the name.
proof fn lemma_first_section_with_props(lines: Seq<Line>, j: int, name: Seq<char>)
    requires
        first_section_with(lines, j, name) is Some,
    ensures
        ({
            let h = first_section_with(lines, j, name).unwrap();
            j <= h < lines.len() && is_patch_section(lines[h]) && first_entry_from(
                lines,
                h + 1,
                name,
            ) is Some
        }),
    decreases lines.len() - j,
{
    if !(j < 0 || j >= lines.len()) {
        if is_patch_section(lines[j]) && first_entry_from(lines, j + 1, name) is Some {
        } else {
            lemma_first_section_with_props(lines, j + 1, name);
        }
    }
}

/// Remove the lines of `[from, to)`.
fn remove_range(v: &mut Vec<Line>, from: usize, to: usize)
    requires
        from <= to <= old(v)@.len(),
    ensures
        final(v)@ == old(v)@.subrange(0, from as int) + old(v)@.subrange(
            to as int,
            old(v)@.len() as int,
        ),
{
    let ghost orig = v@;
    let mut k: usize = 0;
    while k < to - from
        invariant
            from <= to <= orig.len(),
            k <= to - from,
            v@ == orig.subrange(0, from as int) + orig.subrange(from + k, orig.len() as int),
        decreases to - from - k,
    {
        let ghost before = v@;
        v.remove(from);
        proof {
            assert(v@ =~= orig.subrange(0, from as int) + orig.subrange(
                from + k + 1,
                orig.len() as int,
            ));
        }
        k = k + 1;
    }
    proof {
        assert(v@ =~= orig.subrange(0, from as int) + orig.subrange(to as int, orig.len() as int));
    }
}

impl Manifest {
    /// Insert or overwrite the override entry for `name` under the
    /// `[patch.<registry>]` section, creating the section when absent.  Every
    /// line not named by the edit is kept verbatim; a name already present in
    /// that section is overwritten in its place.
    #[verifier::rlimit(60)]
    pub fn add_patch_entry(&mut self, registry: &str, name: &str, source: &InlineRecord) -> (r:
        Result<(), PatchError>)
        ensures
            match r {
                Ok(_) => !bad_patch_shape(old(self)@) && add_post(
                    old(self)@,
                    final(self)@,
                    registry@,
                    name@,
                    source.fields@,
                ) && (if first_reg_section(old(self)@, 0, registry@) is Some {
                    final(self).ends_with_newline() == old(self).ends_with_newline()
                } else {
                    final(self).ends_with_newline()
                }),
                Err(e) => e is NotATable && bad_patch_shape(old(self)@) && final(self)@ == old(
                    self,
                )@ && final(self).ends_with_newline() == old(self).ends_with_newline(),
            },
    {
        if bad_patch_shape_exec(&self.lines) {
            return Err(PatchError::NotATable);
        }
        let entry = render_entry_line(name, source);
        match first_reg_section_exec(&self.lines, 0, registry) {
            Some(h) => {
                let n = self.lines.len();
                proof {
                    assert(h < n);
                }
                match first_entry_from_exec(&self.lines, h + 1, name) {
                    Some(e) => {
                        let ghost before = self.lines@;
                        self.lines.remove(e);
                        self.lines.insert(e, entry);
                        proof {
                            assert(self.lines@.len() == before.len());
                            assert(forall|j: int|
                                0 <= j < before.len() && j != e ==> self.lines@[j] == before[j])
                                by {
                                assert forall|j: int|
                                    0 <= j < before.len() && j != e implies self.lines@[j]
                                    == before[j] by {
                                    if j < e {
                                    } else {
                                        assert(self.lines@[j] == before.remove(e as int)[j - 1]);
                                    }
                                }
                            }
                            assert(self.lines@[e as int] == entry);
                        }
                        Ok(())
                    },
                    None => {
                        let p = match last_content_from_exec(&self.lines, h + 1) {
                            Some(k) => {
                                proof {
                                    assert(k < n);
                                }
                                k + 1
                            },
                            None => h + 1,
                        };
                        self.lines.insert(p, entry);
                        proof {
                            assert(p == insert_pos(old(self)@, h as int));
                            assert(self.lines@[p as int] == entry);
                        }
                        Ok(())
                    },
                }
            },
            None => {
                if self.lines.len() == 0 {
                    self.lines.push(render_header_line(registry));
                    self.lines.push(entry);
                } else {
                    let ghost before = self.lines@;
                    self.lines.push(Line::Blank { raw: String::new() });
                    self.lines.push(render_header_line(registry));
                    self.lines.push(entry);
                    proof {
                        assert(self.lines@.take(before.len() as int) =~= before);
                    }
                }
                self.ends_nl = true;
                Ok(())
            },
        }
    }

    /// Remove the override entry for `name`: scan the patch sections in
    /// order; in the first holding the name, delete that entry, and when it
    /// was the section's only entry, delete the section with its leading
    /// decoration.  Returns whether anything was removed.
    #[verifier::rlimit(60)]
    pub fn remove_patch(&mut self, name: &str) -> (r: Result<bool, PatchError>)
        ensures
            match r {
                Ok(removed) => !bad_patch_shape(old(self)@) && final(self).ends_with_newline()
                    == old(self).ends_with_newline() && (if removed {
                    remove_post(old(self)@, final(self)@, name@)
                } else {
                    first_section_with(old(self)@, 0, name@) is None && final(self)@ == old(self)@
                }),
                Err(e) => e is NotATable && bad_patch_shape(old(self)@) && final(self)@ == old(
                    self,
                )@ && final(self).ends_with_newline() == old(self).ends_with_newline(),
            },
    {
        if bad_patch_shape_exec(&self.lines) {
            return Err(PatchError::NotATable);
        }
        match first_section_with_exec(&self.lines, 0, name) {
            None => Ok(false),
            Some(h) => {
                let n = self.lines.len();
                proof {
                    assert(h < n);
                    lemma_first_section_with_props(self.lines@, 0, name@);
                }
                let e = match first_entry_from_exec(&self.lines, h + 1, name) {
                    Some(e) => e,
                    None => vstd::pervasive::unreached(),
                };
                proof {
                    assert(e < n);
                }
                let sole = match first_any_entry_from_exec(&self.lines, h + 1) {
                    Some(a) => if a == e {
                        match first_any_entry_from_exec(&self.lines, e + 1) {
                            Some(_) => false,
                            None => true,
                        }
                    } else {
                        false
                    },
                    None => false,
                };
                if sole {
                    let d = decor_start_exec(&self.lines, h);
                    remove_range(&mut self.lines, d, e + 1);
                } else {
                    self.lines.remove(e);
                }
                Ok(true)
            },
        }
    }

    /// Add an override for `name` under `registry`, encoding `mode` between
    /// the working directory and the manifest's directory as the entry's
    /// source record.
    pub fn add_patch(
        &mut self,
        working_dir: &str,
        manifest_dir: &str,
        registry: &str,
        name: &str,
        mode: &crate::encode::Mode,
    ) -> (r: Result<(), PatchError>)
        requires
            mode matches crate::encode::Mode::Path(_) ==> crate::paths::is_abs_path(manifest_dir@)
                && crate::paths::is_abs_path(working_dir@),
            (mode matches crate::encode::Mode::Path(_) && crate::paths::parts(manifest_dir@)
                != crate::paths::parts(working_dir@)) ==> crate::paths::no_updirs(
                crate::paths::parts(manifest_dir@),
            ),
        ensures
            match r {
                Ok(_) => !bad_patch_shape(old(self)@) && exists|fs: Seq<InlineField>|
                    #![auto]
                    crate::encode::encoded_ok(*mode, manifest_dir@, working_dir@, fs) && add_post(
                        old(self)@,
                        final(self)@,
                        registry@,
                        name@,
                        fs,
                    ),
                Err(e) => e is NotATable && bad_patch_shape(old(self)@) && final(self)@ == old(
                    self,
                )@ && final(self).ends_with_newline() == old(self).ends_with_newline(),
            },
    {
        let record = crate::encode::encode_source(mode, manifest_dir, working_dir);
        self.add_patch_entry(registry, name, &record)
    }
}

// ------------------------------------------------------------------
// properties of the scans, and the laws built on them
// ------------------------------------------------------------------
/// What a found first entry guarantees: it is named, and nothing before it
/// (from `j`) is a boundary or named.
proof fn lemma_first_entry_props(lines: Seq<Line>, j: int, name: Seq<char>)
    requires
        first_entry_from(lines, j, name) is Some,
    ensures
        ({
            let e = first_entry_from(lines, j, name).unwrap();
            j <= e < lines.len() && is_entry_named(lines[e], name) && (forall|k: int|
                j <= k < e ==> !is_section_header(lines[k]) && !is_entry_named(lines[k], name))
        }),
    decreases lines.len() - j,
{
    if !(j < 0 || j >= lines.len()) && !is_section_header(lines[j]) && !is_entry_named(
        lines[j],
        name,
    ) {
        lemma_first_entry_props(lines, j + 1, name);
    }
}

/// The converse: a named entry with nothing qualifying before it is what the
/// scan finds.
proof fn lemma_first_entry_from_witness(lines: Seq<Line>, j: int, e: int, name: Seq<char>)
    requires
        0 <= j <= e < lines.len(),
        is_entry_named(lines[e], name),
        forall|k: int| j <= k < e ==> !is_section_header(lines[k]) && !is_entry_named(lines[k], name),
    ensures
        first_entry_from(lines, j, name) == Some(e),
    decreases lines.len() - j,
{
    if j < e {
        lemma_first_entry_from_witness(lines, j + 1, e, name);
    } else {
        assert(lines[e] is Entry);
        assert(!is_section_header(lines[e]));
    }
}

/// What a found first entry of any name guarantees.
proof fn lemma_first_any_props(lines: Seq<Line>, j: int)
    requires
        first_any_entry_from(lines, j) is Some,
    ensures
        ({
            let a = first_any_entry_from(lines, j).unwrap();
            j <= a < lines.len() && lines[a] is Entry && (forall|k: int|
                j <= k < a ==> !is_section_header(lines[k]) && !(lines[k] is Entry))
        }),
    decreases lines.len() - j,
{
    if !(j < 0 || j >= lines.len()) && !is_section_header(lines[j]) && !(lines[j] is Entry) {
        lemma_first_any_props(lines, j + 1);
    }
}

/// An entry with no boundary before it guarantees the scan finds something,
/// no later than it.
proof fn lemma_first_any_exists(lines: Seq<Line>, j: int, m: int)
    requires
        0 <= j <= m < lines.len(),
        lines[m] is Entry,
        forall|k: int| j <= k < m ==> !is_section_header(lines[k]),
    ensures
        first_any_entry_from(lines, j) matches Some(a) && a <= m,
    decreases lines.len() - j,
{
    if lines[j] is Entry {
        assert(!is_section_header(lines[j]));
    } else {
        assert(j < m);
        lemma_first_any_exists(lines, j + 1, m);
    }
}

/// When the scan finds nothing, there is no entry before the next boundary.
proof fn lemma_first_any_none(lines: Seq<Line>, j: int, m: int)
    requires
        first_any_entry_from(lines, j) is None,
        0 <= j <= m < lines.len(),
        forall|k: int| j <= k <= m ==> !is_section_header(lines[k]),
    ensures
        !(lines[m] is Entry),
    decreases lines.len() - j,
{
    if j < m {
        lemma_first_any_none(lines, j + 1, m);
    }
}

/// What a found registry section guarantees.
proof fn lemma_first_reg_section_props(lines: Seq<Line>, j: int, reg: Seq<char>)
    requires
        first_reg_section(lines, j, reg) is Some,
    ensures
        ({
            let h = first_reg_section(lines, j, reg).unwrap();
            j <= h < lines.len() && is_reg_section(lines[h], reg)
        }),
    decreases lines.len() - j,
{
    if !(j < 0 || j >= lines.len()) && !is_reg_section(lines[j], reg) {
        lemma_first_reg_section_props(lines, j + 1, reg);
    }
}

/// The converse for section search: a qualifying section with no qualifying
/// section before it is what the scan finds.
proof fn lemma_first_section_with_witness(lines: Seq<Line>, j: int, h: int, name: Seq<char>)
    requires
        0 <= j <= h < lines.len(),
        is_patch_section(lines[h]),
        first_entry_from(lines, h + 1, name) is Some,
        forall|k: int|
            j <= k < h ==> !(is_patch_section(lines[k]) && first_entry_from(
                lines,
                k + 1,
                name,
            ) is Some),
    ensures
        first_section_with(lines, j, name) == Some(h),
    decreases lines.len() - j,
{
    if j < h {
        lemma_first_section_with_witness(lines, j + 1, h, name);
    }
}

/// What a found last content line guarantees: it closes the section's
/// entries, with no boundary up to it.
proof fn lemma_last_content_props(lines: Seq<Line>, j: int)
    requires
        last_content_from(lines, j) is Some,
    ensures
        ({
            let k = last_content_from(lines, j).unwrap();
            j <= k < lines.len() && (lines[k] is Entry || lines[k] is Opaque) && (forall|m: int|
                j <= m <= k ==> !is_section_header(lines[m]))
        }),
    decreases lines.len() - j,
{
    if !(j < 0 || j >= lines.len()) && !is_section_header(lines[j]) {
        if last_content_from(lines, j + 1) is Some {
            lemma_last_content_props(lines, j + 1);
        }
    }
}

/// A content line with no boundary before it bounds the last content line
/// from below.
proof fn lemma_last_content_lb(lines: Seq<Line>, j: int, m: int)
    requires
        0 <= j <= m < lines.len(),
        lines[m] is Entry || lines[m] is Opaque,
        forall|k: int| j <= k <= m ==> !is_section_header(lines[k]),
    ensures
        last_content_from(lines, j) matches Some(k) && k >= m,
    decreases lines.len() - j,
{
    assert(!is_section_header(lines[j]));
    if j < m {
        lemma_last_content_lb(lines, j + 1, m);
    } else {
        if last_content_from(lines, j + 1) is Some {
            lemma_last_content_props(lines, j + 1);
        }
    }
}

/// The decoration run lies between the start of the document and its line.
proof fn lemma_decor_start_bounds(lines: Seq<Line>, h: int)
    requires
        0 <= h <= lines.len(),
    ensures
        0 <= decor_start(lines, h) <= h,
    decreases h,
{
    if h > 0 && is_decor(lines[h - 1]) {
        lemma_decor_start_bounds(lines, h - 1);
    }
}

/// An override entry for `name` standing in a patch section: a patch header
/// above it with no section boundary in between.
pub open spec fn named_in_patch(lines: Seq<Line>, h: int, e: int, name: Seq<char>) -> bool {
    0 <= h < e < lines.len() && is_patch_section(lines[h]) && is_entry_named(lines[e], name) && (
    forall|k: int| h < k < e ==> !is_section_header(lines[k]))
}

/// The data-model invariant: at most one override entry per crate name
/// across the whole patch section.
pub open spec fn unique_patch_entry(lines: Seq<Line>, name: Seq<char>) -> bool {
    forall|h1: int, e1: int, h2: int, e2: int|
        named_in_patch(lines, h1, e1, name) && named_in_patch(lines, h2, e2, name) ==> e1 == e2
}

/// Law: removal is idempotent.  In a document holding at most one override
/// entry per crate name — as the data model guarantees — a removal that
/// found its entry leaves no entry of that name behind, so removing the same
/// name again finds nothing to do and, by the removal contract, reports
/// `false` and leaves the document unchanged.
pub proof fn lemma_remove_idempotent(old_l: Seq<Line>, new_l: Seq<Line>, name: Seq<char>)
    requires
        remove_post(old_l, new_l, name),
        unique_patch_entry(old_l, name),
    ensures
        first_section_with(new_l, 0, name) is None,
{
    let h = first_section_with(old_l, 0, name).unwrap();
    lemma_first_section_with_props(old_l, 0, name);
    let e = first_entry_from(old_l, h + 1, name).unwrap();
    lemma_first_entry_props(old_l, h + 1, name);
    assert(named_in_patch(old_l, h, e, name));
    if first_section_with(new_l, 0, name) is Some {
        let h2 = first_section_with(new_l, 0, name).unwrap();
        lemma_first_section_with_props(new_l, 0, name);
        let e2 = first_entry_from(new_l, h2 + 1, name).unwrap();
        lemma_first_entry_props(new_l, h2 + 1, name);
        assert(named_in_patch(new_l, h2, e2, name));
        if sole_entry(old_l, h, e) {
            let d = decor_start(old_l, h);
            lemma_decor_start_bounds(old_l, h);
            let g = e + 1 - d;
            // new_l = old_l with [d, e] cut out
            assert(new_l.len() == old_l.len() - g);
            assert(forall|i: int| 0 <= i < d ==> new_l[i] == old_l[i]);
            assert(forall|i: int| d <= i < new_l.len() ==> new_l[i] == old_l[i + g]);
            if e2 < d {
                assert(named_in_patch(old_l, h2, e2, name)) by {
                    assert(forall|k: int| h2 < k < e2 ==> old_l[k] == new_l[k]);
                }
                assert(e2 == e);
                assert(false);
            } else {
                let oe2 = e2 + g;
                assert(new_l[e2] == old_l[oe2]);
                assert(is_entry_named(old_l[oe2], name));
                assert(old_l[oe2] is Entry);
                if h2 >= d {
                    // both ends map past the cut: the named entry survives in
                    // its patch section, contradicting uniqueness
                    let oh2 = h2 + g;
                    assert(new_l[h2] == old_l[oh2]);
                    assert(named_in_patch(old_l, oh2, oe2, name)) by {
                        assert forall|k: int| oh2 < k < oe2 implies !is_section_header(
                            old_l[k],
                        ) by {
                            assert(old_l[k] == new_l[k - g]);
                            assert(h2 < k - g < e2);
                        }
                    }
                    assert(oe2 == e);
                    assert(false);
                } else {
                    // the section held nothing after its removed entry, so a
                    // boundary stands between it and the surviving entry, and
                    // that boundary survives inside the claimed section
                    if (forall|k: int| e + 1 <= k <= oe2 ==> !is_section_header(old_l[k])) {
                        lemma_first_any_none(old_l, e + 1, oe2);
                        assert(false);
                    } else {
                        let q = choose|q: int|
                            e + 1 <= q <= oe2 && #[trigger] is_section_header(old_l[q]);
                        assert(q < oe2);
                        assert(new_l[q - g] == old_l[q]);
                        assert(h2 < q - g < e2);
                        assert(!is_section_header(new_l[q - g]));
                        assert(false);
                    }
                }
            }
        } else {
            // new_l = old_l with just the entry at e removed
            assert(new_l.len() == old_l.len() - 1);
            assert(forall|i: int| 0 <= i < e ==> new_l[i] == old_l[i]);
            assert(forall|i: int| e <= i < new_l.len() ==> new_l[i] == old_l[i + 1]);
            let oh2 = if h2 < e {
                h2
            } else {
                h2 + 1
            };
            let oe2 = if e2 < e {
                e2
            } else {
                e2 + 1
            };
            assert(new_l[h2] == old_l[oh2]);
            assert(new_l[e2] == old_l[oe2]);
            assert(oe2 != e);
            assert(named_in_patch(old_l, oh2, oe2, name)) by {
                assert forall|k: int| oh2 < k < oe2 implies !is_section_header(old_l[k]) by {
                    if k == e {
                        assert(old_l[e] is Entry);
                    } else if k < e {
                        assert(old_l[k] == new_l[k]);
                        assert(h2 < k < e2);
                    } else {
                        assert(old_l[k] == new_l[k - 1]);
                        assert(h2 < k - 1 < e2);
                    }
                }
            }
            assert(oe2 == e);
            assert(false);
        }
    }
}

/// Law: adding an override and then removing it restores the document.  The
/// crate name must be fresh (no entry of that name stands anywhere); the
/// registry's section, when it already exists, must hold at least one entry
/// (else the removal also prunes the pre-existing header); and when the
/// section is created, the document must not end in blank or comment lines
/// (which the new section would adopt as its decoration and the removal
/// discard — the documented loss of directly-attached leading comments).
/// Under these conditions the restoration is exact, line for line.
pub proof fn lemma_add_remove_round_trip(
    old_l: Seq<Line>,
    mid: Seq<Line>,
    new_l: Seq<Line>,
    reg: Seq<char>,
    name: Seq<char>,
    fields: Seq<InlineField>,
)
    requires
        add_post(old_l, mid, reg, name, fields),
        remove_post(mid, new_l, name),
        forall|i: int| 0 <= i < old_l.len() ==> !is_entry_named(old_l[i], name),
        match first_reg_section(old_l, 0, reg) {
            Some(h) => first_any_entry_from(old_l, h + 1) is Some,
            None => old_l.len() == 0 || !is_decor(old_l[old_l.len() - 1]),
        },
    ensures
        new_l == old_l,
        forall|nl: bool| render_doc(new_l, nl) == render_doc(old_l, nl),
{
    match first_reg_section(old_l, 0, reg) {
        Some(h) => {
            lemma_first_reg_section_props(old_l, 0, reg);
            if first_entry_from(old_l, h + 1, name) is Some {
                lemma_first_entry_props(old_l, h + 1, name);
                assert(false);
            }
            let p = insert_pos(old_l, h);
            assert(mid == old_l.insert(p, mid[p]));
            let en = mid[p];
            // position facts for the insertion point
            assert(h + 1 <= p <= old_l.len() && (forall|m: int|
                h + 1 <= m < p ==> !is_section_header(old_l[m]))) by {
                if last_content_from(old_l, h + 1) is Some {
                    lemma_last_content_props(old_l, h + 1);
                } else {
                }
            }
            assert(forall|i: int| 0 <= i < p ==> mid[i] == old_l[i]);
            assert(forall|i: int| p < i < mid.len() ==> mid[i] == old_l[i - 1]);
            // the inserted line is the only entry named `name` in mid
            assert(forall|i: int|
                0 <= i < mid.len() && i != p ==> !is_entry_named(mid[i], name));
            // the section search on mid lands on h
            assert(first_entry_from(mid, h + 1, name) == Some(p)) by {
                lemma_first_entry_from_witness(mid, h + 1, p, name);
            }
            assert(first_section_with(mid, 0, name) == Some(h)) by {
                assert(is_patch_section(mid[h]));
                assert forall|k: int|
                    0 <= k < h implies !(is_patch_section(mid[k]) && first_entry_from(
                    mid,
                    k + 1,
                    name,
                ) is Some) by {
                    if is_patch_section(mid[k]) && first_entry_from(mid, k + 1, name) is Some {
                        lemma_first_entry_props(mid, k + 1, name);
                        let e2 = first_entry_from(mid, k + 1, name).unwrap();
                        assert(e2 == p);
                        assert(!is_section_header(mid[h]));
                    }
                }
                lemma_first_section_with_witness(mid, 0, h, name);
            }
            // the section holds another entry, so only the entry is removed
            let a = first_any_entry_from(old_l, h + 1).unwrap();
            lemma_first_any_props(old_l, h + 1);
            assert(a < p) by {
                lemma_last_content_lb(old_l, h + 1, a);
            }
            assert(!sole_entry(mid, h, p)) by {
                lemma_first_any_exists(mid, h + 1, a);
                let x = first_any_entry_from(mid, h + 1).unwrap();
                assert(x <= a < p);
            }
            assert(new_l == mid.remove(p));
            assert(new_l =~= old_l);
        },
        None => {
            if old_l.len() == 0 {
                // mid = [header, entry]
                assert(mid.len() == 2);
                assert(first_section_with(mid, 0, name) == Some(0int)) by {
                    assert(first_entry_from(mid, 1, name) == Some(1int)) by {
                        lemma_first_entry_from_witness(mid, 1, 1, name);
                    }
                    lemma_first_section_with_witness(mid, 0, 0, name);
                }
                assert(sole_entry(mid, 0int, 1int)) by {
                    assert(first_any_entry_from(mid, 1) == Some(1int)) by {
                        assert(mid[1] is Entry);
                    }
                }
                assert(decor_start(mid, 0) == 0);
                assert(new_l =~= old_l);
            } else {
                let n = old_l.len() as int;
                // mid = old_l + [blank, header, entry]
                assert(mid.len() == n + 3);
                assert(forall|i: int| 0 <= i < n ==> mid[i] == old_l[i]);
                assert(forall|i: int|
                    0 <= i < mid.len() && i != n + 2 ==> !is_entry_named(mid[i], name));
                assert(first_entry_from(mid, n + 3, name) is None);
                assert(first_entry_from(mid, n + 2, name) == Some(n + 2)) by {
                    lemma_first_entry_from_witness(mid, n + 2, n + 2, name);
                }
                assert(first_section_with(mid, 0, name) == Some(n + 1)) by {
                    assert(is_patch_section(mid[n + 1]));
                    assert forall|k: int|
                        0 <= k < n + 1 implies !(is_patch_section(mid[k]) && first_entry_from(
                        mid,
                        k + 1,
                        name,
                    ) is Some) by {
                        if is_patch_section(mid[k]) && first_entry_from(mid, k + 1, name) is Some {
                            lemma_first_entry_props(mid, k + 1, name);
                            let e2 = first_entry_from(mid, k + 1, name).unwrap();
                            assert(e2 == n + 2);
                            assert(!is_section_header(mid[n + 1]));
                        }
                    }
                    lemma_first_section_with_witness(mid, 0, n + 1, name);
                }
                assert(sole_entry(mid, n + 1, n + 2)) by {
                    assert(mid[n + 2] is Entry);
                    assert(first_any_entry_from(mid, n + 2) == Some(n + 2));
                    assert(first_any_entry_from(mid, n + 3) is None);
                }
                assert(decor_start(mid, n + 1) == n) by {
                    assert(is_decor(mid[n]));
                    assert(!is_decor(mid[n - 1]));
                    assert(decor_start(mid, n) == n);
                }
                assert(new_l == mid.subrange(0, n) + mid.subrange(n + 3, n + 3));
                assert(new_l =~= old_l);
            }
        },
    }
}

} // verus!
