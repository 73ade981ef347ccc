use crate::value::{val_of, Val, Value};
use vstd::prelude::*;

verus! {

/// The models of a scope stack: innermost scope last.
pub open spec fn scopes_view(s: Seq<Value>) -> Seq<Val> {
    s.map_values(|v: Value| val_of(v))
}

/// A decimal digit.
pub open spec fn spec_is_digit(c: char) -> bool {
    '0' <= c && c <= '9'
}

/// The numeric value of one digit.
pub open spec fn spec_digit(c: char) -> int {
    c as int - '0' as int
}

/// The numeric value of a digit string, most significant first.
pub open spec fn spec_dec_val(s: Seq<char>) -> int
    decreases s.len(),
{
    if s.len() == 0 {
        0
    } else {
        spec_dec_val(s.take(s.len() - 1)) * 10 + spec_digit(s[s.len() - 1])
    }
}

/// Whether a text is all decimal digits.
pub open spec fn spec_all_digits(s: Seq<char>) -> bool {
    forall|k: int| 0 <= k < s.len() ==> spec_is_digit(#[trigger] s[k])
}

/// A path segment read as an array index, the way a decimal integer
/// is read: an optional plus sign, then digits, refused when empty or
/// too large for a machine word.
pub open spec fn spec_seg_index(seg: Seq<char>) -> Option<int> {
    let t = if seg.len() > 0 && seg[0] == '+' {
        seg.skip(1)
    } else {
        seg
    };
    if t.len() > 0 && spec_all_digits(t) && spec_dec_val(t) <= usize::MAX {
        Some(spec_dec_val(t))
    } else {
        None
    }
}

/// A digit string's value only grows as digits are appended.
proof fn lemma_dec_val_grows(s: Seq<char>, i: int)
    requires
        0 <= i <= s.len(),
        spec_all_digits(s),
    ensures
        spec_dec_val(s.take(i)) <= spec_dec_val(s),
    decreases s.len() - i,
{
    if i < s.len() {
        assert(spec_is_digit(s[i]));
        lemma_dec_val_grows(s, i + 1);
        assert(s.take(i + 1).take(i) =~= s.take(i));
        assert(spec_dec_val(s.take(i + 1)) == spec_dec_val(s.take(i)) * 10 + spec_digit(
            s.take(i + 1)[i],
        ));
        assert(spec_dec_val(s.take(i)) >= 0) by {
            lemma_dec_val_nonneg(s.take(i));
        }
        assert(spec_dec_val(s.take(i)) <= spec_dec_val(s.take(i + 1))) by (nonlinear_arith)
            requires
                spec_dec_val(s.take(i + 1)) == spec_dec_val(s.take(i)) * 10 + spec_digit(
                    s.take(i + 1)[i],
                ),
                spec_dec_val(s.take(i)) >= 0,
                spec_digit(s.take(i + 1)[i]) >= 0,
        ;
    } else {
        assert(s.take(i) =~= s);
    }
}

/// A digit string's value is never negative.
proof fn lemma_dec_val_nonneg(s: Seq<char>)
    requires
        spec_all_digits(s),
    ensures
        spec_dec_val(s) >= 0,
    decreases s.len(),
{
    if s.len() > 0 {
        assert(spec_all_digits(s.take(s.len() - 1))) by {
            assert(forall|k: int|
                0 <= k < s.take(s.len() - 1).len() ==> spec_is_digit(
                    #[trigger] s.take(s.len() - 1)[k],
                ));
        }
        lemma_dec_val_nonneg(s.take(s.len() - 1));
    }
}

/// Reads a path segment `path[lo..hi]` as an array index.
#[verifier::loop_isolation(false)]
fn seg_index(path: &str, lo: usize, hi: usize) -> (r: Option<usize>)
    requires
        lo <= hi <= path@.len(),
    ensures
        match r {
            Some(ix) => spec_seg_index(path@.subrange(lo as int, hi as int)) == Some(ix as int),
            None => spec_seg_index(path@.subrange(lo as int, hi as int)) is None,
        },
{
    let ghost seg = path@.subrange(lo as int, hi as int);
    let mut p: usize = lo;
    if p < hi && path.get_char(p) == '+' {
        p = p + 1;
    }
    let ghost t = if seg.len() > 0 && seg[0] == '+' {
        seg.skip(1)
    } else {
        seg
    };
    proof {
        assert(t =~= path@.subrange(p as int, hi as int));
    }
    if p == hi {
        return None;
    }
    let mut v: usize = 0;
    let mut q: usize = p;
    while q < hi
        invariant
            p <= q <= hi <= path@.len(),
            t == path@.subrange(p as int, hi as int),
            forall|k: int| 0 <= k < q - p ==> spec_is_digit(t[k]),
            v == spec_dec_val(t.take(q - p)),
        decreases hi - q,
    {
        let c = path.get_char(q);
        if !(c >= '0' && c <= '9') {
            proof {
                assert(t[q - p] == c);
                assert(!spec_all_digits(t)) by {
                    assert(0 <= q - p < t.len() && !spec_is_digit(t[q - p]));
                }
                assert(spec_seg_index(seg) is None);
            }
            return None;
        }
        let d = (c as u32 - '0' as u32) as usize;
        if v > (usize::MAX - d) / 10 {
            // every longer digit string is at least as large
            proof {
                assert(forall|k: int| 0 <= k < t.len() ==> #[trigger] t[k] == path@[p + k]);
                if spec_all_digits(t) {
                    lemma_dec_val_grows(t, q + 1 - p);
                    assert(t.take(q + 1 - p).take(q - p) =~= t.take(q - p));
                    assert(spec_dec_val(t.take(q + 1 - p)) == v * 10 + d);
                    assert(v * 10 + d > usize::MAX) by (nonlinear_arith)
                        requires
                            v > (usize::MAX - d) / 10,
                            0 <= d <= 9,
                            v >= 0,
                    ;
                }
            }
            return None;
        }
        proof {
            assert(v * 10 + d <= usize::MAX) by (nonlinear_arith)
                requires
                    v <= (usize::MAX - d) / 10,
                    0 <= d <= 9,
                    v >= 0,
            ;
            assert(t.take(q + 1 - p).take(q - p) =~= t.take(q - p));
            assert(t.take(q + 1 - p)[q - p] == c);
        }
        v = v * 10 + d;
        q = q + 1;
    }
    proof {
        assert(t.take(hi - p) =~= t);
    }
    Some(v)
}

/// The first position at or after `i` where a dot stands in the
/// path, or the path's end.
pub open spec fn spec_find_dot(p: Seq<char>, i: int) -> int
    decreases p.len() - i,
{
    if !(0 <= i && i < p.len()) {
        p.len() as int
    } else if p[i] == '.' {
        i
    } else {
        spec_find_dot(p, i + 1)
    }
}

/// The dot-separated segments of the path from position `i` on. A
/// trailing dot yields a final empty segment, as splitting does.
pub open spec fn spec_segments_from(p: Seq<char>, i: int) -> Seq<Seq<char>>
    decreases p.len() - i,
{
    if !(0 <= i && i <= p.len()) {
        Seq::empty()
    } else {
        let d = spec_find_dot(p, i);
        if d >= p.len() {
            seq![p.subrange(i, p.len() as int)]
        } else if i <= d < p.len() {
            seq![p.subrange(i, d)] + spec_segments_from(p, d + 1)
        } else {
            Seq::empty()
        }
    }
}

/// The dot-separated segments of a path.
pub open spec fn spec_segments(p: Seq<char>) -> Seq<Seq<char>> {
    spec_segments_from(p, 0)
}

fn find_dot(p: &str, i: usize) -> (d: usize)
    requires
        i <= p@.len(),
    ensures
        d == spec_find_dot(p@, i as int),
        i <= d <= p@.len(),
{
    let len = p.unicode_len();
    let mut j: usize = i;
    loop
        invariant
            i <= j <= len,
            len == p@.len(),
            spec_find_dot(p@, i as int) == spec_find_dot(p@, j as int),
        decreases len - j,
    {
        if j == len {
            return j;
        }
        if p.get_char(j) == '.' {
            return j;
        }
        j = j + 1;
    }
}

/// The segments of a path, as ranges into it.
fn segment_ranges(p: &str) -> (r: Vec<(usize, usize)>)
    ensures
        r@.len() == spec_segments(p@).len(),
        forall|k: int|
            0 <= k < r@.len() ==> {
                &&& (#[trigger] r@[k]).0 <= r@[k].1 <= p@.len()
                &&& p@.subrange(r@[k].0 as int, r@[k].1 as int) == spec_segments(p@)[k]
            },
{
    let len = p.unicode_len();
    let mut out: Vec<(usize, usize)> = Vec::new();
    let mut i: usize = 0;
    loop
        invariant
            i <= len + 1,
            len == p@.len(),
            spec_segments(p@) =~= out@.map_values(
                |seg: (usize, usize)| p@.subrange(seg.0 as int, seg.1 as int),
            ) + if i <= len {
                spec_segments_from(p@, i as int)
            } else {
                Seq::empty()
            },
            forall|k: int| 0 <= k < out@.len() ==> (#[trigger] out@[k]).0 <= out@[k].1 <= p@.len(),
            i <= len,
        decreases len - i,
    {
        let d = find_dot(p, i);
        out.push((i, d));
        proof {
            assert(out@.map_values(|seg: (usize, usize)| p@.subrange(seg.0 as int, seg.1 as int))
                =~= out@.drop_last().map_values(
                |seg: (usize, usize)| p@.subrange(seg.0 as int, seg.1 as int),
            ).push(p@.subrange(i as int, d as int)));
        }
        if d == len {
            proof {
                assert(spec_segments(p@) =~= out@.map_values(
                    |seg: (usize, usize)| p@.subrange(seg.0 as int, seg.1 as int),
                ));
            }
            return out;
        }
        i = d + 1;
    }
}

/// Looks a key up among an object's fields: the first field whose
/// name equals `path[lo..hi]`.
pub open spec fn spec_obj_get(pairs: Seq<(Seq<char>, Val)>, key: Seq<char>) -> Option<Val>
    decreases pairs.len(),
{
    if pairs.len() == 0 {
        None
    } else if pairs[0].0 == key {
        Some(pairs[0].1)
    } else {
        spec_obj_get(pairs.skip(1), key)
    }
}

/// Whether `a` equals `path[lo..hi]`.
pub(crate) fn str_eq_sub(a: &str, path: &str, lo: usize, hi: usize) -> (r: bool)
    requires
        lo <= hi <= path@.len(),
    ensures
        r == (a@ == path@.subrange(lo as int, hi as int)),
{
    let alen = a.unicode_len();
    if alen != hi - lo {
        return false;
    }
    let mut k: usize = 0;
    while k < alen
        invariant
            0 <= k <= alen,
            alen == a@.len(),
            alen == hi - lo,
            lo <= hi <= path@.len(),
            forall|m: int| 0 <= m < k ==> a@[m] == path@[lo + m],
        decreases alen - k,
    {
        if a.get_char(k) != path.get_char(lo + k) {
            proof {
                assert(a@[k as int] != path@.subrange(lo as int, hi as int)[k as int]);
            }
            return false;
        }
        k = k + 1;
    }
    proof {
        assert(a@ =~= path@.subrange(lo as int, hi as int));
    }
    true
}

fn obj_get<'a>(pairs: &'a Vec<(String, Value)>, path: &str, lo: usize, hi: usize) -> (r: Option<
    &'a Value,
>)
    requires
        lo <= hi <= path@.len(),
    ensures
        ({
            let pv = val_of(Value::Object(*pairs))->Object_0;
            let key = path@.subrange(lo as int, hi as int);
            match r {
                Some(v) => spec_obj_get(pv, key) == Some(v@),
                None => spec_obj_get(pv, key) is None,
            }
        }),
{
    let ghost pv = val_of(Value::Object(*pairs))->Object_0;
    let ghost key = path@.subrange(lo as int, hi as int);
    proof {
        assert(pv.skip(0) =~= pv);
    }
    let mut k: usize = 0;
    loop
        invariant
            k <= pairs@.len(),
            lo <= hi <= path@.len(),
            pv == val_of(Value::Object(*pairs))->Object_0,
            key == path@.subrange(lo as int, hi as int),
            spec_obj_get(pv, key) == spec_obj_get(pv.skip(k as int), key),
        decreases pairs@.len() - k,
    {
        if k == pairs.len() {
            proof {
                assert(pv.skip(k as int).len() == 0);
            }
            return None;
        }
        proof {
            assert(pv.skip(k as int)[0] == pv[k as int]);
            assert(pv.skip(k as int).skip(1) =~= pv.skip(k + 1));
        }
        if str_eq_sub(pairs[k].0.as_str(), path, lo, hi) {
            return Some(&pairs[k].1);
        }
        k = k + 1;
    }
}

/// What walking a path's segments through one scope yields: the value
/// reached; a miss on the very first segment, which falls back to the
/// scope outside; or a definite miss, which resolves to null.
pub enum Walked {
    Hit(Val),
    Fallback,
    Nul,
}

/// Walks segments `k..` of a path from the value `cur`. An object is
/// entered by key, an array by a segment read as an index; an index
/// beyond the array's length is a definite miss, whatever the
/// segment's place. Any other miss falls back only on the first
/// segment.
pub open spec fn spec_walk(p: Seq<char>, segs: Seq<Seq<char>>, k: int, cur: Val) -> Walked
    decreases segs.len() - k,
{
    if !(0 <= k < segs.len()) {
        Walked::Hit(cur)
    } else {
        match cur {
            Val::Object(pairs) => match spec_obj_get(pairs, segs[k]) {
                Some(child) => spec_walk(p, segs, k + 1, child),
                None => if k == 0 {
                    Walked::Fallback
                } else {
                    Walked::Nul
                },
            },
            Val::Array(items) => match spec_seg_index(segs[k]) {
                Some(ix) => if ix < items.len() {
                    spec_walk(p, segs, k + 1, items[ix])
                } else {
                    Walked::Nul
                },
                None => if k == 0 {
                    Walked::Fallback
                } else {
                    Walked::Nul
                },
            },
            _ => if k == 0 {
                Walked::Fallback
            } else {
                Walked::Nul
            },
        }
    }
}

/// Resolves a path against the scopes `0..=i`, innermost (highest
/// index) first. A first-segment miss tries the next scope out; at
/// the outermost scope it yields that scope itself.
pub open spec fn spec_resolve_from(p: Seq<char>, segs: Seq<Seq<char>>, sv: Seq<Val>, i: int) -> Val
    decreases i,
{
    if !(0 <= i < sv.len()) {
        Val::Null
    } else {
        match spec_walk(p, segs, 0, sv[i]) {
            Walked::Hit(v) => v,
            Walked::Nul => Val::Null,
            Walked::Fallback => if i == 0 {
                sv[0]
            } else {
                spec_resolve_from(p, segs, sv, i - 1)
            },
        }
    }
}

/// Resolves a dotted path against a scope stack: the path `.` names
/// the innermost scope; otherwise its segments are walked through
/// each scope from innermost outward, first-segment misses falling
/// back to the enclosing scope, and a miss past the first segment
/// resolving to null. When the first segment misses every scope, the
/// outermost scope itself is the result.
pub open spec fn spec_resolve(p: Seq<char>, sv: Seq<Val>) -> Val {
    if p == seq!['.'] {
        sv.last()
    } else {
        spec_resolve_from(p, spec_segments(p), sv, sv.len() - 1)
    }
}

enum WalkOut<'a> {
    Hit(&'a Value),
    Fallback,
    Nul,
}

fn walk_scope<'a>(path: &str, segs: &Vec<(usize, usize)>, scope: &'a Value) -> (r: WalkOut<'a>)
    requires
        forall|k: int|
            0 <= k < segs@.len() ==> (#[trigger] segs@[k]).0 <= segs@[k].1 <= path@.len(),
    ensures
        ({
            let sm = segs@.map_values(
                |seg: (usize, usize)| path@.subrange(seg.0 as int, seg.1 as int),
            );
            match r {
                WalkOut::Hit(v) => spec_walk(path@, sm, 0, scope@) == Walked::Hit(v@),
                WalkOut::Fallback => spec_walk(path@, sm, 0, scope@) == Walked::Fallback,
                WalkOut::Nul => spec_walk(path@, sm, 0, scope@) == Walked::Nul,
            }
        }),
{
    let ghost sm = segs@.map_values(|seg: (usize, usize)| path@.subrange(seg.0 as int, seg.1 as int));
    let mut cur: &Value = scope;
    let mut k: usize = 0;
    loop
        invariant
            k <= segs@.len(),
            sm == segs@.map_values(
                |seg: (usize, usize)| path@.subrange(seg.0 as int, seg.1 as int),
            ),
            forall|m: int|
                0 <= m < segs@.len() ==> (#[trigger] segs@[m]).0 <= segs@[m].1 <= path@.len(),
            spec_walk(path@, sm, 0, scope@) == spec_walk(path@, sm, k as int, cur@),
        decreases segs@.len() - k,
    {
        if k == segs.len() {
            return WalkOut::Hit(cur);
        }
        let (lo, hi) = (segs[k].0, segs[k].1);
        match cur {
            Value::Object(pairs) => {
                match obj_get(pairs, path, lo, hi) {
                    Some(child) => {
                        cur = child;
                        k = k + 1;
                    },
                    None => {
                        if k == 0 {
                            return WalkOut::Fallback;
                        }
                        return WalkOut::Nul;
                    },
                }
            },
            Value::Array(items) => {
                match seg_index(path, lo, hi) {
                    Some(ix) => {
                        if ix < items.len() {
                            proof {
                                assert(val_of(*cur)->Array_0[ix as int] == val_of(
                                    items@[ix as int],
                                ));
                            }
                            cur = &items[ix];
                            k = k + 1;
                        } else {
                            return WalkOut::Nul;
                        }
                    },
                    None => {
                        if k == 0 {
                            return WalkOut::Fallback;
                        }
                        return WalkOut::Nul;
                    },
                }
            },
            _ => {
                if k == 0 {
                    return WalkOut::Fallback;
                }
                return WalkOut::Nul;
            },
        }
    }
}

/// Resolves a dotted path against a scope stack, innermost scope
/// last. The result is a copy of the value the path names, null when
/// it names none, and the outermost scope when the path's first
/// segment misses every scope.
pub fn resolve_value(path: &str, scopes: &Vec<Value>) -> (r: Value)
    requires
        scopes@.len() > 0,
    ensures
        r@ == spec_resolve(path@, scopes_view(scopes@)),
{
    let ghost sv = scopes_view(scopes@);
    let plen = path.unicode_len();
    if plen == 1 && path.get_char(0) == '.' {
        proof {
            assert(path@ =~= seq!['.']);
        }
        return scopes[scopes.len() - 1].duplicate();
    }
    proof {
        assert(path@ != seq!['.']);
    }
    let segs = segment_ranges(path);
    let ghost sm = segs@.map_values(|seg: (usize, usize)| path@.subrange(seg.0 as int, seg.1 as int));
    proof {
        assert(sm =~= spec_segments(path@));
    }
    let mut i: usize = scopes.len() - 1;
    loop
        invariant
            0 <= i < scopes@.len(),
            sv == scopes_view(scopes@),
            sm == segs@.map_values(
                |seg: (usize, usize)| path@.subrange(seg.0 as int, seg.1 as int),
            ),
            sm == spec_segments(path@),
            forall|k: int|
                0 <= k < segs@.len() ==> (#[trigger] segs@[k]).0 <= segs@[k].1 <= path@.len(),
            path@ != seq!['.'],
            spec_resolve(path@, sv) == spec_resolve_from(path@, sm, sv, i as int),
        decreases i,
    {
        match walk_scope(path, &segs, &scopes[i]) {
            WalkOut::Hit(v) => {
                return v.duplicate();
            },
            WalkOut::Nul => {
                return Value::Null;
            },
            WalkOut::Fallback => {
                if i == 0 {
                    return scopes[0].duplicate();
                }
                i = i - 1;
            },
        }
    }
}

} // verus!
