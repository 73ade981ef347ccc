use crate::output::{spec_escape, spec_value_text};
use crate::parse::{spec_open_at, spec_parse};
use crate::render::{
    spec_lookup, spec_remove_name, spec_render, spec_render_each, spec_cat,
};
use crate::resolve::spec_resolve;
use crate::template::{block_wf, is_section_frag, Frag, SkipV, TplV};
use crate::value::{spec_truthy, Val};
use vstd::prelude::*;

verus! {

proof fn lemma_find_open_none(s: Seq<char>, i: int)
    requires
        0 <= i <= s.len(),
        forall|j: int| !spec_open_at(s, j),
    ensures
        crate::parse::spec_find_open(s, i) == s.len(),
    decreases s.len() - i,
{
    if i + 2 <= s.len() {
        assert(!spec_open_at(s, i));
        lemma_find_open_none(s, i + 1);
    }
}

/// Literal text parses to itself: a non-empty source without `{{`
/// becomes a single literal fragment and an empty skip table, and
/// rendering it against null gives the source back.
pub proof fn lemma_literal_template_roundtrip(s: Seq<char>)
    requires
        s.len() > 0,
        forall|j: int| !spec_open_at(s, j),
    ensures
        spec_parse(s) == Ok::<TplV, crate::errors::ErrV>(
            TplV { frags: seq![Frag::Literal(s)], skips: Seq::<SkipV>::empty() },
        ),
        spec_render(seq![Frag::Literal(s)], Seq::empty(), Seq::empty(), seq![Val::Null]) == Ok::<
            Seq<char>,
            Seq<char>,
        >(s),
{
    let len = s.len() as int;
    lemma_find_open_none(s, 0);
    assert(!spec_open_at(s, 0));
    assert(s.subrange(0, len) =~= s);
    assert(crate::parse::spec_parse_block(s, len) == Ok::<crate::parse::BlockV, crate::errors::ErrV>(
        crate::parse::BlockV {
            frags: Seq::empty(),
            skips: Seq::empty(),
            end: len,
            close: None,
        },
    ));
    let b = crate::parse::spec_parse_block(s, 0)->Ok_0;
    assert(b.frags =~= seq![Frag::Literal(s)]);
    assert(b.skips =~= Seq::<SkipV>::empty());
    assert(spec_parse(s)->Ok_0 == TplV { frags: seq![Frag::Literal(s)], skips: Seq::empty() });
    let frags = seq![Frag::Literal(s)];
    assert(frags.skip(1) =~= Seq::<Frag>::empty());
    assert(spec_render(frags.skip(1), Seq::empty(), Seq::empty(), seq![Val::Null]) == Ok::<
        Seq<char>,
        Seq<char>,
    >(Seq::empty()));
    assert(s + Seq::<char>::empty() =~= s);
}

/// Escaping equivalence: rendering `{{ x }}` where `x` resolves to a
/// string equals rendering `{{{ x }}}` where `x` resolves to that
/// string with its HTML-special characters already replaced by their
/// entities.
pub proof fn lemma_escaping_equivalence(
    p: Seq<char>,
    s: Seq<char>,
    loader: Seq<(Seq<char>, TplV)>,
    scopes1: Seq<Val>,
    scopes2: Seq<Val>,
)
    requires
        spec_resolve(p, scopes1) == Val::Str(s),
        spec_resolve(p, scopes2) == Val::Str(spec_escape(s)),
    ensures
        spec_render(seq![Frag::EscapedVariable(p)], Seq::empty(), loader, scopes1) == spec_render(
            seq![Frag::UnescapedVariable(p)],
            Seq::empty(),
            loader,
            scopes2,
        ),
{
    let fe = seq![Frag::EscapedVariable(p)];
    let fu = seq![Frag::UnescapedVariable(p)];
    assert(fe.skip(1) =~= Seq::<Frag>::empty());
    assert(fu.skip(1) =~= Seq::<Frag>::empty());
    assert(spec_render(Seq::<Frag>::empty(), Seq::empty(), loader, scopes1) == Ok::<
        Seq<char>,
        Seq<char>,
    >(Seq::empty()));
    assert(spec_render(Seq::<Frag>::empty(), Seq::empty(), loader, scopes2) == Ok::<
        Seq<char>,
        Seq<char>,
    >(Seq::empty()));
    assert(spec_value_text(Val::Str(s)) == s);
    assert(spec_escape(s) + Seq::<char>::empty() =~= spec_escape(s));
}

/// Empty-context inverted sections: over a falsy value, the template
/// `{{^x}}B{{/x}}` renders exactly as its body does, with the falsy
/// value pushed as the innermost scope.
pub proof fn lemma_inverted_section_falsy(
    p: Seq<char>,
    body: Seq<Frag>,
    bs: Seq<SkipV>,
    loader: Seq<(Seq<char>, TplV)>,
    scopes: Seq<Val>,
)
    requires
        block_wf(
            seq![Frag::InvertedSection(p)] + body,
            seq![SkipV { sections: bs.len() as int, fragments: body.len() as int }] + bs,
        ),
        !spec_truthy(spec_resolve(p, scopes)),
    ensures
        spec_render(
            seq![Frag::InvertedSection(p)] + body,
            seq![SkipV { sections: bs.len() as int, fragments: body.len() as int }] + bs,
            loader,
            scopes,
        ) == spec_render(body, bs, loader, scopes.push(spec_resolve(p, scopes))),
{
    let frags = seq![Frag::InvertedSection(p)] + body;
    let skips = seq![SkipV { sections: bs.len() as int, fragments: body.len() as int }] + bs;
    assert(frags[0] == Frag::InvertedSection(p));
    assert(skips[0] == SkipV { sections: bs.len() as int, fragments: body.len() as int });
    assert(frags.subrange(1, 1 + body.len() as int) =~= body);
    assert(skips.subrange(1, 1 + bs.len() as int) =~= bs);
    assert(frags.subrange(1 + body.len() as int, frags.len() as int) =~= Seq::<Frag>::empty());
    assert(skips.subrange(1 + bs.len() as int, skips.len() as int) =~= Seq::<SkipV>::empty());
    assert(spec_render(Seq::<Frag>::empty(), Seq::<SkipV>::empty(), loader, scopes) == Ok::<
        Seq<char>,
        Seq<char>,
    >(Seq::empty()));
    let this = spec_render(body, bs, loader, scopes.push(spec_resolve(p, scopes)));
    match this {
        Err(e) => {
        },
        Ok(txt) => {
            assert(txt + Seq::<char>::empty() =~= txt);
        },
    }
}

/// The array implicit iterator: a section over a non-empty array
/// renders its body once per element, in array order, each element
/// the innermost scope for its turn; the section's own output is the
/// concatenation of those renders.
pub proof fn lemma_section_array_iterates(
    p: Seq<char>,
    body: Seq<Frag>,
    bs: Seq<SkipV>,
    elems: Seq<Val>,
    loader: Seq<(Seq<char>, TplV)>,
    scopes: Seq<Val>,
)
    requires
        block_wf(
            seq![Frag::Section(p)] + body,
            seq![SkipV { sections: bs.len() as int, fragments: body.len() as int }] + bs,
        ),
        spec_resolve(p, scopes) == Val::Array(elems),
        elems.len() > 0,
    ensures
        spec_render(
            seq![Frag::Section(p)] + body,
            seq![SkipV { sections: bs.len() as int, fragments: body.len() as int }] + bs,
            loader,
            scopes,
        ) == spec_render_each(elems, 0, body, bs, loader, scopes),
        forall|k: int|
            0 <= k < elems.len() ==> #[trigger] spec_render_each(elems, k, body, bs, loader, scopes)
                == spec_cat_result(
                spec_render(body, bs, loader, scopes.push(elems[k])),
                spec_render_each(elems, k + 1, body, bs, loader, scopes),
            ),
{
    let frags = seq![Frag::Section(p)] + body;
    let skips = seq![SkipV { sections: bs.len() as int, fragments: body.len() as int }] + bs;
    assert(frags[0] == Frag::Section(p));
    assert(skips[0] == SkipV { sections: bs.len() as int, fragments: body.len() as int });
    assert(frags.subrange(1, 1 + body.len() as int) =~= body);
    assert(skips.subrange(1, 1 + bs.len() as int) =~= bs);
    assert(frags.subrange(1 + body.len() as int, frags.len() as int) =~= Seq::<Frag>::empty());
    assert(skips.subrange(1 + bs.len() as int, skips.len() as int) =~= Seq::<SkipV>::empty());
    assert(spec_render(Seq::<Frag>::empty(), Seq::<SkipV>::empty(), loader, scopes) == Ok::<
        Seq<char>,
        Seq<char>,
    >(Seq::empty()));
    let this = spec_render_each(elems, 0, body, bs, loader, scopes);
    match this {
        Err(e) => {
        },
        Ok(txt) => {
            assert(txt + Seq::<char>::empty() =~= txt);
        },
    }
    assert forall|k: int| 0 <= k < elems.len() implies #[trigger] spec_render_each(
        elems,
        k,
        body,
        bs,
        loader,
        scopes,
    ) == spec_cat_result(
        spec_render(body, bs, loader, scopes.push(elems[k])),
        spec_render_each(elems, k + 1, body, bs, loader, scopes),
    ) by {
        let first = spec_render(body, bs, loader, scopes.push(elems[k]));
        match first {
            Err(e) => {
            },
            Ok(t) => {
            },
        }
    }
}

/// One render outcome glued after another's text.
pub open spec fn spec_cat_result(
    first: Result<Seq<char>, Seq<char>>,
    rest: Result<Seq<char>, Seq<char>>,
) -> Result<Seq<char>, Seq<char>> {
    match first {
        Err(e) => Err(e),
        Ok(t) => spec_cat(t, rest),
    }
}

/// Partial transparency: rendering `{{>p}}` with a loader that maps
/// `p` to a template equals rendering that template with the same
/// scope stack, the name `p` itself out of reach inside its own
/// expansion.
pub proof fn lemma_partial_transparency(
    name: Seq<char>,
    t: TplV,
    loader: Seq<(Seq<char>, TplV)>,
    scopes: Seq<Val>,
)
    requires
        spec_lookup(loader, name) == Some(t),
    ensures
        spec_render(seq![Frag::Partial(name)], Seq::empty(), loader, scopes) == spec_render(
            t.frags,
            t.skips,
            spec_remove_name(loader, name),
            scopes,
        ),
{
    crate::render::lemma_remove_shrinks_pub(loader, name);
    let frags = seq![Frag::Partial(name)];
    assert(frags.skip(1) =~= Seq::<Frag>::empty());
    assert(spec_render(Seq::<Frag>::empty(), Seq::<SkipV>::empty(), loader, scopes) == Ok::<
        Seq<char>,
        Seq<char>,
    >(Seq::empty()));
    let sub = spec_render(t.frags, t.skips, spec_remove_name(loader, name), scopes);
    match sub {
        Err(e) => {
        },
        Ok(txt) => {
            assert(txt + Seq::<char>::empty() =~= txt);
        },
    }
}

/// How many section or inverted-section fragments a list holds.
pub open spec fn spec_count_sections(frags: Seq<Frag>) -> int
    decreases frags.len(),
{
    if frags.len() == 0 {
        0
    } else {
        (if is_section_frag(frags[0]) {
            1int
        } else {
            0int
        }) + spec_count_sections(frags.skip(1))
    }
}

/// The fragment index of the k-th section fragment, counting from
/// zero in source order.
pub open spec fn spec_section_pos(frags: Seq<Frag>, k: int) -> int
    decreases frags.len(),
{
    if frags.len() == 0 {
        0
    } else if is_section_frag(frags[0]) {
        if k == 0 {
            0
        } else {
            1 + spec_section_pos(frags.skip(1), k - 1)
        }
    } else {
        1 + spec_section_pos(frags.skip(1), k)
    }
}

proof fn lemma_count_concat(a: Seq<Frag>, b: Seq<Frag>)
    ensures
        spec_count_sections(a + b) == spec_count_sections(a) + spec_count_sections(b),
    decreases a.len(),
{
    if a.len() == 0 {
        assert(a + b =~= b);
    } else {
        assert((a + b)[0] == a[0]);
        assert((a + b).skip(1) =~= a.skip(1) + b);
        lemma_count_concat(a.skip(1), b);
    }
}

proof fn lemma_count_le_len(frags: Seq<Frag>)
    ensures
        0 <= spec_count_sections(frags) <= frags.len(),
    decreases frags.len(),
{
    if frags.len() > 0 {
        lemma_count_le_len(frags.skip(1));
    }
}

/// A structurally consistent block holds exactly one skip entry per
/// section fragment.
pub proof fn lemma_count_of_wf(frags: Seq<Frag>, skips: Seq<SkipV>)
    requires
        block_wf(frags, skips),
    ensures
        spec_count_sections(frags) == skips.len(),
    decreases frags.len(),
{
    if frags.len() == 0 {
    } else if is_section_frag(frags[0]) {
        let nf = skips[0].fragments;
        let ns = skips[0].sections;
        let body = frags.subrange(1, 1 + nf);
        let rest = frags.subrange(1 + nf, frags.len() as int);
        lemma_count_of_wf(body, skips.subrange(1, 1 + ns));
        lemma_count_of_wf(rest, skips.subrange(1 + ns, skips.len() as int));
        assert(frags.skip(1) =~= body + rest);
        lemma_count_concat(body, rest);
    } else {
        assert(frags.skip(1) =~= frags.subrange(1, frags.len() as int));
        lemma_count_of_wf(frags.subrange(1, frags.len() as int), skips);
    }
}

proof fn lemma_section_pos_concat_left(a: Seq<Frag>, b: Seq<Frag>, k: int)
    requires
        0 <= k < spec_count_sections(a),
    ensures
        spec_section_pos(a + b, k) == spec_section_pos(a, k),
    decreases a.len(),
{
    lemma_count_le_len(a);
    assert((a + b)[0] == a[0]);
    assert((a + b).skip(1) =~= a.skip(1) + b);
    if is_section_frag(a[0]) {
        if k > 0 {
            lemma_section_pos_concat_left(a.skip(1), b, k - 1);
        }
    } else {
        lemma_section_pos_concat_left(a.skip(1), b, k);
    }
}

proof fn lemma_section_pos_concat_right(a: Seq<Frag>, b: Seq<Frag>, k: int)
    requires
        spec_count_sections(a) <= k,
    ensures
        spec_section_pos(a + b, k) == a.len() + spec_section_pos(b, k - spec_count_sections(a)),
    decreases a.len(),
{
    if a.len() == 0 {
        assert(a + b =~= b);
    } else {
        assert((a + b)[0] == a[0]);
        assert((a + b).skip(1) =~= a.skip(1) + b);
        lemma_count_le_len(a.skip(1));
        if is_section_frag(a[0]) {
            lemma_section_pos_concat_right(a.skip(1), b, k - 1);
        } else {
            lemma_section_pos_concat_right(a.skip(1), b, k);
        }
    }
}

/// Section-skip consistency: in a structurally consistent template,
/// the k-th skip entry describes the k-th section fragment, and the
/// fragments of that section's body hold exactly the counted number
/// of nested sections.
pub proof fn lemma_section_skip_consistency(frags: Seq<Frag>, skips: Seq<SkipV>, k: int)
    requires
        block_wf(frags, skips),
        0 <= k < skips.len(),
    ensures
        ({
            let f = spec_section_pos(frags, k);
            let nf = skips[k].fragments;
            &&& 0 <= f < frags.len()
            &&& is_section_frag(frags[f])
            &&& 0 <= nf && f + 1 + nf <= frags.len()
            &&& spec_count_sections(frags.subrange(f + 1, f + 1 + nf)) == skips[k].sections
        }),
    decreases frags.len(),
{
    lemma_count_of_wf(frags, skips);
    if frags.len() == 0 {
    } else if is_section_frag(frags[0]) {
        let nf0 = skips[0].fragments;
        let ns0 = skips[0].sections;
        let body = frags.subrange(1, 1 + nf0);
        let bskips = skips.subrange(1, 1 + ns0);
        let rest = frags.subrange(1 + nf0, frags.len() as int);
        let rskips = skips.subrange(1 + ns0, skips.len() as int);
        lemma_count_of_wf(body, bskips);
        lemma_count_of_wf(rest, rskips);
        assert(frags.skip(1) =~= body + rest);
        if k == 0 {
            assert(frags.subrange(1, 1 + nf0) =~= body);
        } else if k <= ns0 {
            lemma_section_pos_concat_left(body, rest, k - 1);
            lemma_section_skip_consistency(body, bskips, k - 1);
            let fb = spec_section_pos(body, k - 1);
            let f = 1 + fb;
            let nf = skips[k].fragments;
            assert(skips[k] == bskips[k - 1]);
            assert(frags[f] == body[fb]);
            assert(frags.subrange(f + 1, f + 1 + nf) =~= body.subrange(fb + 1, fb + 1 + nf));
        } else {
            lemma_section_pos_concat_right(body, rest, k - 1);
            lemma_section_skip_consistency(rest, rskips, k - 1 - ns0);
            let fr = spec_section_pos(rest, k - 1 - ns0);
            let f = 1 + nf0 + fr;
            let nf = skips[k].fragments;
            assert(skips[k] == rskips[k - 1 - ns0]);
            assert(frags[f] == rest[fr]);
            assert(frags.subrange(f + 1, f + 1 + nf) =~= rest.subrange(fr + 1, fr + 1 + nf));
        }
    } else {
        let tail = frags.subrange(1, frags.len() as int);
        assert(frags.skip(1) =~= tail);
        lemma_section_skip_consistency(tail, skips, k);
        let ft = spec_section_pos(tail, k);
        let f = 1 + ft;
        let nf = skips[k].fragments;
        assert(frags[f] == tail[ft]);
        assert(frags.subrange(f + 1, f + 1 + nf) =~= tail.subrange(ft + 1, ft + 1 + nf));
    }
}

proof fn lemma_parse_block_skip_bounds(s: Seq<char>, i: int)
    requires
        0 <= i <= s.len(),
        crate::parse::spec_parse_block(s, i) is Ok,
    ensures
        ({
            let b = crate::parse::spec_parse_block(s, i)->Ok_0;
            forall|k: int|
                0 <= k < b.skips.len() ==> 0 <= (#[trigger] b.skips[k]).sections
                    <= b.skips[k].fragments <= 65535
        }),
    decreases s.len() - i,
{
    let len = s.len() as int;
    let b = crate::parse::spec_parse_block(s, i)->Ok_0;
    if !(0 <= i && i < len) {
    } else if spec_open_at(s, i) {
        if i + 2 < len && s[i + 2] == '/' {
        } else if i + 2 < len && (s[i + 2] == '#' || s[i + 2] == '^') {
            match crate::parse::spec_var_path(s, i + 3) {
                None => {
                },
                Some((lo, hi, j)) => {
                    let body = crate::parse::spec_parse_block(s, j + 2)->Ok_0;
                    lemma_parse_block_skip_bounds(s, j + 2);
                    crate::parse::lemma_parse_block_wf(s, j + 2);
                    lemma_count_of_wf(body.frags, body.skips);
                    lemma_count_le_len(body.frags);
                    let rest = crate::parse::spec_parse_block(s, body.end)->Ok_0;
                    lemma_parse_block_skip_bounds(s, body.end);
                    let skip0 = SkipV {
                        sections: body.skips.len() as int,
                        fragments: body.frags.len() as int,
                    };
                    assert(b.skips == seq![skip0] + body.skips + rest.skips);
                    assert forall|k: int| 0 <= k < b.skips.len() implies 0 <= (
                    #[trigger] b.skips[k]).sections <= b.skips[k].fragments <= 65535 by {
                        if k == 0 {
                            assert(b.skips[0] == skip0);
                        } else if k <= body.skips.len() {
                            assert(b.skips[k] == body.skips[k - 1]);
                        } else {
                            assert(b.skips[k] == rest.skips[k - 1 - body.skips.len()]);
                        }
                    }
                },
            }
        } else if i + 2 < len && s[i + 2] == '{' {
            match crate::parse::spec_var_path(s, i + 3) {
                None => {
                },
                Some((lo, hi, j)) => {
                    if crate::parse::spec_close3_at(s, j) && i < j + 3 && j + 3 <= len {
                        lemma_parse_block_skip_bounds(s, j + 3);
                    }
                },
            }
        } else if i + 2 < len && s[i + 2] == '!' {
            let c = crate::parse::spec_find_close(s, i + 3);
            if c < len && i < c + 2 && c + 2 <= len {
                lemma_parse_block_skip_bounds(s, c + 2);
            }
        } else if i + 2 < len && s[i + 2] == '>' {
            match crate::parse::spec_file_path(s, i + 3) {
                None => {
                },
                Some((lo, hi, j)) => {
                    if crate::parse::spec_close_at(s, j) && i < j + 2 && j + 2 <= len {
                        lemma_parse_block_skip_bounds(s, j + 2);
                    }
                },
            }
        } else {
            match crate::parse::spec_var_path(s, i + 2) {
                None => {
                },
                Some((lo, hi, j)) => {
                    if crate::parse::spec_close_at(s, j) && i < j + 2 && j + 2 <= len {
                        lemma_parse_block_skip_bounds(s, j + 2);
                    }
                },
            }
        }
    } else {
        let kk = crate::parse::spec_find_open(s, i);
        if i < kk && kk <= len {
            lemma_parse_block_skip_bounds(s, kk);
        }
    }
}

/// Skips stay in bounds: in any template the parse accepts, each
/// skip entry's fragment count is at most 65535, and its section
/// count never exceeds its fragment count, since every nested
/// section is also a nested fragment. Counts beyond 65535 make the
/// parse fail instead.
pub proof fn lemma_parse_skip_bounds(s: Seq<char>)
    requires
        spec_parse(s) is Ok,
    ensures
        ({
            let t = spec_parse(s)->Ok_0;
            forall|k: int|
                0 <= k < t.skips.len() ==> 0 <= (#[trigger] t.skips[k]).sections
                    <= t.skips[k].fragments <= 65535
        }),
{
    if s.len() > 0 {
        lemma_parse_block_skip_bounds(s, 0);
    }
}

/// Partial transparency under the same loader: when the referenced
/// template renders at all, rendering `{{>p}}` equals rendering that
/// template with the same scope stack and the same loader. The
/// proviso keeps out the templates that mention `p` inside its own
/// expansion; those never finish rendering, and without the proviso
/// the equality fails: with `p` mapped to `{{>q}}` and `q` to
/// `{{>p}}`, the left side stops at the unreachable `p` and the
/// right side one step later at the unreachable `q`, naming
/// different partials in their errors.
pub proof fn lemma_partial_transparency_same_loader(
    name: Seq<char>,
    t: TplV,
    loader: Seq<(Seq<char>, TplV)>,
    scopes: Seq<Val>,
)
    requires
        spec_lookup(loader, name) == Some(t),
        spec_render(t.frags, t.skips, spec_remove_name(loader, name), scopes) is Ok,
    ensures
        spec_render(seq![Frag::Partial(name)], Seq::empty(), loader, scopes) == spec_render(
            t.frags,
            t.skips,
            loader,
            scopes,
        ),
{
    lemma_partial_transparency(name, t, loader, scopes);
    assert(crate::render::spec_serves_at_least(spec_remove_name(loader, name), loader)) by {
        assert forall|n: Seq<char>|
            #[trigger] spec_lookup(spec_remove_name(loader, name), n) is Some implies spec_lookup(
            loader,
            n,
        ) == spec_lookup(spec_remove_name(loader, name), n) by {
            crate::render::lemma_lookup_remove_self(loader, name);
            assert(n != name);
            crate::render::lemma_lookup_remove_other(loader, name, n);
        }
    }
    crate::render::lemma_render_monotonic(
        t.frags,
        t.skips,
        spec_remove_name(loader, name),
        loader,
        scopes,
    );
}

} // verus!
