//! A component model of slash-separated paths.
//!
//! A path is read as its sequence of components, with empty and `.`
//! components dropped, as Rust's own component iteration does.  Relative-path
//! computation between two absolute directories is delegated to an outside
//! routine whose result is pinned down over this model, and rejoining the
//! result to the base is proved to lead back to the original path.

use vstd::prelude::*;

verus! {

/// An absolute path starts with a slash.
pub open spec fn is_abs_path(s: Seq<char>) -> bool {
    s.len() > 0 && s[0] == '/'
}

/// A well-formed component: non-empty, not `.`, and free of slashes.
pub open spec fn seg_ok(p: Seq<char>) -> bool {
    p.len() > 0 && p != "."@ && (forall|j: int| 0 <= j < p.len() ==> p[j] != '/')
}

/// Every component is well-formed.
pub open spec fn segs_ok(v: Seq<Seq<char>>) -> bool {
    forall|i: int| 0 <= i < v.len() ==> seg_ok(v[i])
}

/// No component climbs to the parent directory.
pub open spec fn no_updirs(v: Seq<Seq<char>>) -> bool {
    forall|i: int| 0 <= i < v.len() ==> v[i] != ".."@
}

/// Length of the leading slash-free run of `s`.
pub open spec fn head_len(s: Seq<char>) -> int
    decreases s.len(),
{
    if s.len() == 0 {
        0
    } else if s[0] == '/' {
        0
    } else {
        1 + head_len(s.skip(1))
    }
}

/// The leading run is a prefix of the string.
pub proof fn lemma_head_len_bounds(s: Seq<char>)
    ensures
        0 <= head_len(s) <= s.len(),
    decreases s.len(),
{
    if s.len() > 0 && s[0] != '/' {
        lemma_head_len_bounds(s.skip(1));
    }
}

/// The leading run is slash-free and ends at a slash or at the end.
pub proof fn lemma_head_len_chars(s: Seq<char>)
    ensures
        forall|j: int| 0 <= j < head_len(s) ==> s[j] != '/',
        head_len(s) < s.len() ==> s[head_len(s)] == '/',
    decreases s.len(),
{
    lemma_head_len_bounds(s);
    if s.len() > 0 && s[0] != '/' {
        lemma_head_len_chars(s.skip(1));
        lemma_head_len_bounds(s.skip(1));
        assert forall|j: int| 0 <= j < head_len(s) implies s[j] != '/' by {
            if j > 0 {
                assert(s.skip(1)[j - 1] != '/');
            }
        }
        if head_len(s) < s.len() {
            assert(s.skip(1)[head_len(s) - 1] == '/');
        }
    }
}

/// A position that bounds a slash-free run closed by a slash or the end is
/// exactly the leading run's length.
pub proof fn lemma_head_len_unique(s: Seq<char>, h: int)
    requires
        0 <= h <= s.len(),
        forall|j: int| 0 <= j < h ==> s[j] != '/',
        h == s.len() || s[h] == '/',
    ensures
        head_len(s) == h,
    decreases s.len(),
{
    if s.len() == 0 {
    } else if s[0] == '/' {
        assert(h == 0);
    } else {
        assert(h >= 1);
        assert(forall|j: int| 0 <= j < h - 1 ==> s.skip(1)[j] != '/');
        if h - 1 < s.len() - 1 {
            assert(s.skip(1)[h - 1] == s[h]);
        }
        lemma_head_len_unique(s.skip(1), h - 1);
    }
}

/// The components of a path: maximal slash-free runs, with empty and `.`
/// runs dropped.
pub open spec fn parts(s: Seq<char>) -> Seq<Seq<char>>
    decreases s.len(),
    via parts_dec
{
    if s.len() == 0 {
        Seq::empty()
    } else if s[0] == '/' {
        parts(s.skip(1))
    } else {
        let k = head_len(s);
        let seg = s.take(k);
        let rest = s.skip(k);
        if seg == "."@ {
            parts(rest)
        } else {
            seq![seg] + parts(rest)
        }
    }
}

#[via_fn]
proof fn parts_dec(s: Seq<char>) {
    if s.len() > 0 && s[0] != '/' {
        lemma_head_len_bounds(s);
        lemma_head_len_bounds(s.skip(1));
        assert(head_len(s) >= 1);
    }
}

/// Components produced by `parts` are well-formed.
pub proof fn lemma_parts_clean(s: Seq<char>)
    ensures
        segs_ok(parts(s)),
    decreases s.len(),
{
    if s.len() == 0 {
    } else if s[0] == '/' {
        lemma_parts_clean(s.skip(1));
    } else {
        lemma_head_len_bounds(s);
        lemma_head_len_chars(s);
        let k = head_len(s);
        let seg = s.take(k);
        let rest = s.skip(k);
        lemma_parts_clean(rest);
        if seg != "."@ {
            assert(k >= 1);
            assert(seg_ok(seg)) by {
                assert(forall|j: int| 0 <= j < seg.len() ==> seg[j] == s[j] && s[j] != '/');
            }
            assert forall|i: int| 0 <= i < parts(s).len() implies seg_ok(parts(s)[i]) by {
                if i > 0 {
                    assert(parts(s)[i] == parts(rest)[i - 1]);
                }
            }
        }
    }
}

/// Serialised form of components as a relative tail: `/c` for each component.
pub open spec fn render_tail(v: Seq<Seq<char>>) -> Seq<char>
    decreases v.len(),
{
    if v.len() == 0 {
        Seq::empty()
    } else {
        seq!['/'] + v[0] + render_tail(v.skip(1))
    }
}

/// Serialised form of components as an absolute path.
pub open spec fn render_abs(v: Seq<Seq<char>>) -> Seq<char> {
    if v.len() == 0 {
        "/"@
    } else {
        render_tail(v)
    }
}

/// Reading back a rendered absolute path yields the components it was
/// rendered from.
pub proof fn lemma_parts_render(v: Seq<Seq<char>>)
    requires
        segs_ok(v),
    ensures
        parts(render_abs(v)) == v,
        is_abs_path(render_abs(v)),
    decreases v.len(),
{
    reveal_strlit("/");
    reveal_strlit(".");
    if v.len() == 0 {
        assert("/"@.len() == 1);
        assert("/"@[0] == '/');
        assert("/"@.skip(1) =~= Seq::<char>::empty());
        assert(parts("/"@) == parts("/"@.skip(1)));
        assert(parts(Seq::<char>::empty()) == Seq::<Seq<char>>::empty());
        assert(parts(render_abs(v)) =~= v);
    } else {
        let s = render_tail(v);
        let seg = v[0];
        let tail = render_tail(v.skip(1));
        assert(s == seq!['/'] + seg + tail);
        assert(s[0] == '/');
        assert(s.len() >= 1 + seg.len());
        let u = s.skip(1);
        assert(u =~= seg + tail);
        // the head run of u is exactly seg
        assert(head_len(u) == seg.len()) by {
            assert(forall|j: int| 0 <= j < seg.len() ==> u[j] == seg[j]);
            if v.len() == 1 {
                assert(tail =~= Seq::<char>::empty());
                lemma_head_len_unique(u, seg.len() as int);
            } else {
                assert(tail == seq!['/'] + v[1] + render_tail(v.skip(1).skip(1)));
                assert(u[seg.len() as int] == tail[0]);
                assert(tail[0] == '/');
                lemma_head_len_unique(u, seg.len() as int);
            }
        }
        assert(u.take(seg.len() as int) =~= seg);
        assert(u.skip(seg.len() as int) =~= tail);
        assert(seg != "."@);
        assert(u.len() > 0);
        assert(u[0] == seg[0]);
        assert(seg[0] != '/');
        assert(parts(s) == parts(u));
        assert(parts(u) == seq![u.take(head_len(u))] + parts(u.skip(head_len(u))));
        assert(u.take(head_len(u)) == seg);
        assert(u.skip(head_len(u)) == tail);
        if v.len() == 1 {
            assert(tail.len() == 0);
            assert(parts(tail) == Seq::<Seq<char>>::empty());
            assert(parts(s) =~= seq![seg]);
            assert(parts(render_abs(v)) =~= v);
        } else {
            lemma_parts_render(v.skip(1));
            assert(render_abs(v.skip(1)) == render_tail(v.skip(1)));
            assert(parts(tail) == v.skip(1));
            assert(parts(s) == seq![seg] + v.skip(1));
            assert(parts(s) =~= v);
        }
    }
}

/// Length of the common prefix of two component sequences.
pub open spec fn common_len(a: Seq<Seq<char>>, b: Seq<Seq<char>>) -> int
    decreases a.len(),
{
    if a.len() == 0 || b.len() == 0 || a[0] != b[0] {
        0
    } else {
        1 + common_len(a.skip(1), b.skip(1))
    }
}

/// The common prefix is a prefix of both sequences, and equal in both.
pub proof fn lemma_common_len_bounds(a: Seq<Seq<char>>, b: Seq<Seq<char>>)
    ensures
        0 <= common_len(a, b) <= a.len(),
        common_len(a, b) <= b.len(),
        a.take(common_len(a, b)) == b.take(common_len(a, b)),
    decreases a.len(),
{
    if a.len() == 0 || b.len() == 0 || a[0] != b[0] {
        assert(a.take(0) =~= b.take(0));
    } else {
        lemma_common_len_bounds(a.skip(1), b.skip(1));
        let c = common_len(a, b);
        assert(a.skip(1).take(c - 1) == b.skip(1).take(c - 1));
        assert(a.take(c) =~= seq![a[0]] + a.skip(1).take(c - 1));
        assert(b.take(c) =~= seq![b[0]] + b.skip(1).take(c - 1));
    }
}

/// `k` parent-directory components.
pub open spec fn updirs(k: nat) -> Seq<Seq<char>> {
    Seq::new(k, |i: int| ".."@)
}

/// The relative path from `b` to `t` (both read as absolute component
/// sequences): climb out of what remains of `b` past the common prefix, then
/// descend into what remains of `t`.
pub open spec fn rel_parts(t: Seq<Seq<char>>, b: Seq<Seq<char>>) -> Seq<Seq<char>> {
    let c = common_len(t, b);
    updirs((b.len() - c) as nat) + t.skip(c)
}

/// One step of lexical normalisation: `..` drops the last component kept so
/// far, `.` and empty components vanish, anything else is kept.
pub open spec fn norm_push(acc: Seq<Seq<char>>, p: Seq<char>) -> Seq<Seq<char>> {
    if p == ".."@ {
        if acc.len() == 0 {
            acc
        } else {
            acc.drop_last()
        }
    } else if p == "."@ || p.len() == 0 {
        acc
    } else {
        acc.push(p)
    }
}

/// Normalise `v` on top of the components `acc` already kept.
pub open spec fn norm_from(acc: Seq<Seq<char>>, v: Seq<Seq<char>>) -> Seq<Seq<char>>
    decreases v.len(),
{
    if v.len() == 0 {
        acc
    } else {
        norm_from(norm_push(acc, v[0]), v.skip(1))
    }
}

/// Lexical normalisation of an absolute path's components: `..` climbs, and
/// climbing above the root stays at the root.
pub open spec fn normalize(v: Seq<Seq<char>>) -> Seq<Seq<char>> {
    norm_from(Seq::empty(), v)
}

/// Normalisation processes a concatenation left to right.
pub proof fn lemma_norm_append(acc: Seq<Seq<char>>, x: Seq<Seq<char>>, y: Seq<Seq<char>>)
    ensures
        norm_from(acc, x + y) == norm_from(norm_from(acc, x), y),
    decreases x.len(),
{
    if x.len() == 0 {
        assert(x + y =~= y);
    } else {
        assert((x + y)[0] == x[0]);
        assert((x + y).skip(1) =~= x.skip(1) + y);
        lemma_norm_append(norm_push(acc, x[0]), x.skip(1), y);
    }
}

/// Well-formed components without `..` pass through normalisation unchanged.
pub proof fn lemma_norm_clean(acc: Seq<Seq<char>>, v: Seq<Seq<char>>)
    requires
        segs_ok(v),
        no_updirs(v),
    ensures
        norm_from(acc, v) == acc + v,
    decreases v.len(),
{
    if v.len() == 0 {
        assert(acc + v =~= acc);
    } else {
        assert(seg_ok(v[0]) && v[0] != ".."@);
        assert(norm_push(acc, v[0]) == acc.push(v[0]));
        lemma_norm_clean(acc.push(v[0]), v.skip(1));
        assert(acc.push(v[0]) + v.skip(1) =~= acc + v);
    }
}

/// `k` climbs drop the last `k` components.
pub proof fn lemma_norm_updirs(acc: Seq<Seq<char>>, k: nat)
    requires
        k <= acc.len(),
    ensures
        norm_from(acc, updirs(k)) == acc.take(acc.len() - k),
    decreases k,
{
    if k == 0 {
        assert(updirs(0).len() == 0);
        assert(acc.take(acc.len() as int) =~= acc);
    } else {
        assert(updirs(k)[0] == ".."@);
        assert(acc.len() > 0);
        assert(norm_push(acc, ".."@) == acc.drop_last());
        assert(acc.drop_last() =~= acc.take(acc.len() - 1));
        assert(updirs(k).skip(1) =~= updirs((k - 1) as nat));
        lemma_norm_updirs(acc.take(acc.len() - 1), (k - 1) as nat);
        assert(acc.take(acc.len() - 1).take(acc.len() - k) =~= acc.take(acc.len() - k));
    }
}

/// Law: rejoining a relative path to the base it was computed against leads
/// back to the path it was computed from.  For any target components `t` and
/// any base components `b` that are well-formed and free of `..` (as a
/// canonicalised absolute directory's are), appending `rel_parts(t, b)` to
/// `b` normalises to the same components as `t` itself.
pub proof fn lemma_path_round_trip(t: Seq<Seq<char>>, b: Seq<Seq<char>>)
    requires
        segs_ok(b),
        no_updirs(b),
    ensures
        normalize(b + rel_parts(t, b)) == normalize(t),
{
    let c = common_len(t, b);
    lemma_common_len_bounds(t, b);
    let k = (b.len() - c) as nat;
    let rest = t.skip(c);
    assert(b + rel_parts(t, b) =~= (b + updirs(k)) + rest);
    lemma_norm_append(Seq::empty(), b + updirs(k), rest);
    lemma_norm_append(Seq::empty(), b, updirs(k));
    lemma_norm_clean(Seq::empty(), b);
    assert(Seq::empty() + b =~= b);
    lemma_norm_updirs(b, k);
    assert(norm_from(Seq::empty(), b + updirs(k)) == b.take(c));
    assert(normalize(b + rel_parts(t, b)) == norm_from(b.take(c), rest));
    // the target side
    assert(t =~= t.take(c) + rest);
    lemma_norm_append(Seq::empty(), t.take(c), rest);
    assert(t.take(c) == b.take(c));
    assert(segs_ok(b.take(c)) && no_updirs(b.take(c))) by {
        assert(forall|i: int| 0 <= i < b.take(c).len() ==> b.take(c)[i] == b[i]);
    }
    lemma_norm_clean(Seq::empty(), b.take(c));
    assert(Seq::empty() + b.take(c) =~= b.take(c));
    assert(normalize(t) == norm_from(b.take(c), rest));
}

/// Views of a sequence of owned strings.
pub open spec fn str_views(v: Seq<String>) -> Seq<Seq<char>> {
    Seq::new(v.len(), |i: int| v[i]@)
}

/// Split a path into its components.
pub fn split_parts(s: &str) -> (r: Vec<String>)
    ensures
        str_views(r@) == parts(s@),
    decreases s@.len(),
{
    proof {
        reveal_strlit(".");
    }
    let n = s.unicode_len();
    if n == 0 {
        let r = Vec::new();
        proof {
            assert(str_views(Seq::<String>::empty()) =~= parts(s@));
        }
        r
    } else if s.get_char(0) == '/' {
        let rest = s.substring_char(1, n);
        proof {
            assert(rest@ =~= s@.skip(1));
        }
        split_parts(rest)
    } else {
        // measure the leading slash-free run
        let mut k: usize = 1;
        while k < n && s.get_char(k) != '/'
            invariant
                n == s@.len(),
                1 <= k <= n,
                forall|j: int| 0 <= j < k ==> s@[j] != '/',
            decreases n - k,
        {
            k = k + 1;
        }
        proof {
            lemma_head_len_unique(s@, k as int);
        }
        let seg = s.substring_char(0, k);
        let rest = s.substring_char(k, n);
        proof {
            assert(seg@ =~= s@.take(k as int));
            assert(rest@ =~= s@.skip(k as int));
        }
        if crate::text::str_eq(seg, ".") {
            split_parts(rest)
        } else {
            let mut r: Vec<String> = Vec::new();
            r.push(seg.to_owned());
            let mut tail = split_parts(rest);
            r.append(&mut tail);
            proof {
                assert(str_views(r@) =~= seq![seg@] + parts(rest@));
            }
            r
        }
    }
}

/// Component-wise equality of two paths.
pub fn path_eq(a: &str, b: &str) -> (r: bool)
    ensures
        r == (parts(a@) == parts(b@)),
{
    let va = split_parts(a);
    let vb = split_parts(b);
    if va.len() != vb.len() {
        proof {
            assert(parts(a@).len() != parts(b@).len());
        }
        return false;
    }
    let mut i: usize = 0;
    while i < va.len()
        invariant
            va@.len() == vb@.len(),
            str_views(va@) == parts(a@),
            str_views(vb@) == parts(b@),
            i <= va@.len(),
            forall|j: int| 0 <= j < i ==> parts(a@)[j] == parts(b@)[j],
        decreases va@.len() - i,
    {
        if !crate::text::str_eq(va[i].as_str(), vb[i].as_str()) {
            proof {
                assert(parts(a@)[i as int] == va@[i as int]@);
                assert(parts(b@)[i as int] == vb@[i as int]@);
            }
            return false;
        }
        proof {
            assert(parts(a@)[i as int] == va@[i as int]@);
            assert(parts(b@)[i as int] == vb@[i as int]@);
        }
        i = i + 1;
    }
    proof {
        assert(parts(a@) =~= parts(b@));
    }
    true
}

/// `render_tail` grows at its end, one component at a time.
proof fn lemma_render_tail_snoc(v: Seq<Seq<char>>, x: Seq<char>)
    ensures
        render_tail(v.push(x)) == render_tail(v) + seq!['/'] + x,
    decreases v.len(),
{
    if v.len() == 0 {
        assert(v.push(x).len() == 1);
        assert(v.push(x)[0] == x);
        assert(v.push(x).skip(1) =~= Seq::<Seq<char>>::empty());
        assert(render_tail(v.push(x)) == seq!['/'] + x + render_tail(v.push(x).skip(1)));
        assert(render_tail(v.push(x).skip(1)) == Seq::<char>::empty());
        assert(render_tail(v.push(x)) =~= Seq::<char>::empty() + seq!['/'] + x);
    } else {
        assert(v.push(x)[0] == v[0]);
        assert(v.push(x).skip(1) =~= v.skip(1).push(x));
        lemma_render_tail_snoc(v.skip(1), x);
        assert(render_tail(v.push(x)) =~= render_tail(v) + seq!['/'] + x);
    }
}

/// Render components as an absolute path string.
pub fn build_abs(v: &Vec<String>) -> (r: String)
    ensures
        r@ == render_abs(str_views(v@)),
{
    if v.len() == 0 {
        let r = "/".to_owned();
        proof {
            assert(str_views(v@).len() == 0);
        }
        return r;
    }
    let mut out = String::new();
    let mut i: usize = 0;
    while i < v.len()
        invariant
            i <= v@.len(),
            out@ == render_tail(str_views(v@).take(i as int)),
        decreases v@.len() - i,
    {
        out.append("/");
        out.append(v[i].as_str());
        proof {
            reveal_strlit("/");
            let w = str_views(v@);
            assert(w.take(i + 1 as int) =~= w.take(i as int).push(w[i as int]));
            lemma_render_tail_snoc(w.take(i as int), w[i as int]);
            assert(out@ =~= render_tail(w.take(i as int)) + seq!['/'] + w[i as int]);
        }
        i = i + 1;
    }
    proof {
        assert(str_views(v@).take(v@.len() as int) =~= str_views(v@));
        assert(str_views(v@).len() > 0);
    }
    out
}

/// No component of the vector is `..`.
pub fn no_updirs_vec(v: &Vec<String>) -> (r: bool)
    ensures
        r == no_updirs(str_views(v@)),
{
    let mut i: usize = 0;
    while i < v.len()
        invariant
            i <= v@.len(),
            forall|j: int| 0 <= j < i ==> str_views(v@)[j] != ".."@,
        decreases v@.len() - i,
    {
        if crate::text::str_eq(v[i].as_str(), "..") {
            proof {
                assert(str_views(v@)[i as int] == v@[i as int]@);
            }
            return false;
        }
        proof {
            assert(str_views(v@)[i as int] == v@[i as int]@);
        }
        i = i + 1;
    }
    true
}

/// A base directory free of `..` components can always be climbed out of.
pub fn base_is_clean(s: &str) -> (r: bool)
    ensures
        r == no_updirs(parts(s@)),
{
    let v = split_parts(s);
    no_updirs_vec(&v)
}

/// Relies on `pathdiff::diff_paths`: between two absolute paths it strips
/// the common component prefix, climbs with one `..` per remaining base
/// component, and descends into the remaining target components; a base free
/// of `..` components always yields a result.
#[verifier::external_body]
pub(crate) fn diff_paths_str(target: &str, base: &str) -> (r: Option<String>)
    requires
        is_abs_path(target@),
        is_abs_path(base@),
    ensures
        match r {
            Some(d) => no_updirs(parts(base@)) ==> parts(d@) == rel_parts(
                parts(target@),
                parts(base@),
            ),
            None => !no_updirs(parts(base@)),
        },
{
    pathdiff::diff_paths(target, base).map(|p| p.to_string_lossy().into_owned())
}

} // verus!
