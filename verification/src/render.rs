use crate::errors::{ErrV, MoostacheError};
use crate::output::{escape_into, spec_escape, spec_value_text, write_value};
use crate::resolve::{resolve_value, scopes_view, spec_resolve, str_eq_sub};
use crate::template::{block_wf, frags_view, skips_view, Frag, Fragment, SectionSkip, SkipV, Template, TplV};
use crate::value::{is_truthy, spec_truthy, val_of, Val, Value};
use vstd::prelude::*;

verus! {

/// What a loader serves: name and compiled template pairs, looked up
/// first match wins.
pub open spec fn spec_lookup(l: Seq<(Seq<char>, TplV)>, name: Seq<char>) -> Option<TplV>
    decreases l.len(),
{
    if l.len() == 0 {
        None
    } else if l[0].0 == name {
        Some(l[0].1)
    } else {
        spec_lookup(l.skip(1), name)
    }
}

/// The loader's templates without every pair of the given name.
pub open spec fn spec_remove_name(l: Seq<(Seq<char>, TplV)>, name: Seq<char>) -> Seq<
    (Seq<char>, TplV),
>
    decreases l.len(),
{
    if l.len() == 0 {
        l
    } else if l[0].0 == name {
        spec_remove_name(l.skip(1), name)
    } else {
        seq![l[0]] + spec_remove_name(l.skip(1), name)
    }
}

/// The loader's templates with every name in `vis` removed: what a
/// partial may still refer to while the templates named in `vis` are
/// being expanded.
pub open spec fn spec_avail(l: Seq<(Seq<char>, TplV)>, vis: Seq<Seq<char>>) -> Seq<
    (Seq<char>, TplV),
>
    decreases vis.len(),
{
    if vis.len() == 0 {
        l
    } else {
        spec_remove_name(spec_avail(l, vis.drop_last()), vis.last())
    }
}

/// After a name is removed, the loader no longer serves it.
pub proof fn lemma_lookup_remove_self(l: Seq<(Seq<char>, TplV)>, name: Seq<char>)
    ensures
        spec_lookup(spec_remove_name(l, name), name) is None,
    decreases l.len(),
{
    if l.len() > 0 {
        lemma_lookup_remove_self(l.skip(1), name);
        if l[0].0 != name {
            assert((seq![l[0]] + spec_remove_name(l.skip(1), name)).skip(1) =~= spec_remove_name(
                l.skip(1),
                name,
            ));
        }
    }
}

/// Removing one name leaves every other lookup unchanged.
pub proof fn lemma_lookup_remove_other(l: Seq<(Seq<char>, TplV)>, name: Seq<char>, other: Seq<char>)
    requires
        other != name,
    ensures
        spec_lookup(spec_remove_name(l, name), other) == spec_lookup(l, other),
    decreases l.len(),
{
    if l.len() > 0 {
        lemma_lookup_remove_other(l.skip(1), name, other);
        if l[0].0 != name {
            assert((seq![l[0]] + spec_remove_name(l.skip(1), name)).skip(1) =~= spec_remove_name(
                l.skip(1),
                name,
            ));
            assert((seq![l[0]] + spec_remove_name(l.skip(1), name))[0] == l[0]);
        }
    }
}

proof fn lemma_remove_no_longer(l: Seq<(Seq<char>, TplV)>, name: Seq<char>)
    ensures
        spec_remove_name(l, name).len() <= l.len(),
    decreases l.len(),
{
    if l.len() > 0 {
        lemma_remove_no_longer(l.skip(1), name);
    }
}

/// Removing a name the loader serves makes it strictly smaller.
pub proof fn lemma_remove_shrinks_pub(l: Seq<(Seq<char>, TplV)>, name: Seq<char>)
    requires
        spec_lookup(l, name) is Some,
    ensures
        spec_remove_name(l, name).len() < l.len(),
    decreases l.len(),
{
    if l.len() > 0 {
        if l[0].0 == name {
            lemma_remove_no_longer(l.skip(1), name);
        } else {
            lemma_remove_shrinks_pub(l.skip(1), name);
        }
    }
}

proof fn lemma_avail_contains(l: Seq<(Seq<char>, TplV)>, vis: Seq<Seq<char>>, name: Seq<char>)
    requires
        vis.contains(name),
    ensures
        spec_lookup(spec_avail(l, vis), name) is None,
    decreases vis.len(),
{
    if vis.len() > 0 {
        if vis.last() == name {
            lemma_lookup_remove_self(spec_avail(l, vis.drop_last()), vis.last());
        } else {
            let k = choose|k: int| 0 <= k < vis.len() && vis[k] == name;
            assert(vis.drop_last()[k] == name);
            assert(vis.drop_last().contains(name));
            lemma_avail_contains(l, vis.drop_last(), name);
            lemma_lookup_remove_other(spec_avail(l, vis.drop_last()), vis.last(), name);
        }
    }
}

proof fn lemma_avail_not_contains(l: Seq<(Seq<char>, TplV)>, vis: Seq<Seq<char>>, name: Seq<char>)
    requires
        !vis.contains(name),
    ensures
        spec_lookup(spec_avail(l, vis), name) == spec_lookup(l, name),
    decreases vis.len(),
{
    if vis.len() > 0 {
        assert(!vis.drop_last().contains(name)) by {
            if vis.drop_last().contains(name) {
                let k = choose|k: int| 0 <= k < vis.drop_last().len() && vis.drop_last()[k] == name;
                assert(vis[k] == name);
            }
        }
        assert(vis.last() != name) by {
            if vis.last() == name {
                assert(vis[vis.len() - 1] == name);
            }
        }
        lemma_avail_not_contains(l, vis.drop_last(), name);
        lemma_lookup_remove_other(spec_avail(l, vis.drop_last()), vis.last(), name);
    }
}

proof fn lemma_avail_push(l: Seq<(Seq<char>, TplV)>, vis: Seq<Seq<char>>, name: Seq<char>)
    ensures
        spec_avail(l, vis.push(name)) == spec_remove_name(spec_avail(l, vis), name),
{
    assert(vis.push(name).drop_last() =~= vis);
    assert(vis.push(name).last() == name);
}

/// A loader of templates: an abstract capability from a name to a
/// compiled template. `templates()` is what it serves; `get` looks a
/// name up in it. `mutable()` says whether `insert` and `remove` act
/// on it, since the null loader accepts neither.
pub trait TemplateLoader {
    /// The name-and-template pairs this loader serves; a lookup takes
    /// the first pair whose name matches.
    spec fn templates(&self) -> Seq<(Seq<char>, TplV)>;

    /// Whether `insert` and `remove` act on this loader.
    spec fn mutable(&self) -> bool;

    /// The template of the given name, if this loader serves one.
    fn get(&self, name: &str) -> (r: Option<&Template>)
        ensures
            match r {
                Some(t) => spec_lookup(self.templates(), name@) == Some(t@),
                None => spec_lookup(self.templates(), name@) is None,
            },
    ;

    /// Stores a template under a name, replacing and returning the
    /// one that held the name before, if any.
    fn insert(&mut self, name: String, value: Template) -> (r: Option<Template>)
        ensures
            old(self).mutable() ==> ({
                &&& final(self).templates() == spec_replace(old(self).templates(), name@, value@)
                &&& match r {
                    Some(t) => spec_lookup(old(self).templates(), name@) == Some(t@),
                    None => spec_lookup(old(self).templates(), name@) is None,
                }
            }),
            !old(self).mutable() ==> final(self).templates() == old(self).templates() && r is None,
            final(self).mutable() == old(self).mutable(),
    ;

    /// Removes and returns the template of the given name, if this
    /// loader holds one.
    fn remove(&mut self, name: &str) -> (r: Option<Template>)
        ensures
            old(self).mutable() ==> ({
                &&& final(self).templates() == spec_remove_name(old(self).templates(), name@)
                &&& match r {
                    Some(t) => spec_lookup(old(self).templates(), name@) == Some(t@),
                    None => spec_lookup(old(self).templates(), name@) is None,
                }
            }),
            !old(self).mutable() ==> final(self).templates() == old(self).templates() && r is None,
            final(self).mutable() == old(self).mutable(),
    ;
}

/// The loader's templates with the first pair of the given name
/// replaced, or with the pair appended when the name is new.
pub open spec fn spec_replace(l: Seq<(Seq<char>, TplV)>, name: Seq<char>, t: TplV) -> Seq<
    (Seq<char>, TplV),
>
    decreases l.len(),
{
    if l.len() == 0 {
        seq![(name, t)]
    } else if l[0].0 == name {
        seq![(name, t)] + l.skip(1)
    } else {
        seq![l[0]] + spec_replace(l.skip(1), name, t)
    }
}

/// The null loader: serves no templates at all, so any template that
/// names a partial fails to render with it.
impl TemplateLoader for () {
    open spec fn templates(&self) -> Seq<(Seq<char>, TplV)> {
        Seq::empty()
    }

    open spec fn mutable(&self) -> bool {
        false
    }

    fn get(&self, name: &str) -> (r: Option<&Template>) {
        None
    }

    fn insert(&mut self, name: String, value: Template) -> (r: Option<Template>) {
        None
    }

    fn remove(&mut self, name: &str) -> (r: Option<Template>) {
        None
    }
}

/// A prefix glued onto a render outcome.
pub open spec fn spec_cat(prefix: Seq<char>, r: Result<Seq<char>, Seq<char>>) -> Result<
    Seq<char>,
    Seq<char>,
> {
    match r {
        Ok(t) => Ok(prefix + t),
        Err(e) => Err(e),
    }
}

/// What rendering a block of fragments yields: its output text, or
/// the name of a partial that could not be fetched. A literal emits
/// its text; a variable resolves and emits its value, HTML-escaped
/// unless raw; a section renders its body once per element over an
/// array, once over any other truthy value, and not at all over a
/// falsy one; an inverted section renders its body exactly once over
/// a falsy value; and a partial renders the loader's template in
/// place, that template's own name being out of reach inside itself.
///
/// The guards that fall back to `Ok` or `Err` keep the recursion
/// well-founded; no structurally consistent template reaches them.
pub open spec fn spec_render(
    frags: Seq<Frag>,
    skips: Seq<SkipV>,
    loader: Seq<(Seq<char>, TplV)>,
    scopes: Seq<Val>,
) -> Result<Seq<char>, Seq<char>>
    decreases loader.len(), frags.len(), 0int, 0int,
{
    if frags.len() == 0 {
        Ok(Seq::empty())
    } else {
        match frags[0] {
            Frag::Literal(t) => spec_cat(t, spec_render(frags.skip(1), skips, loader, scopes)),
            Frag::EscapedVariable(p) => spec_cat(
                spec_escape(spec_value_text(spec_resolve(p, scopes))),
                spec_render(frags.skip(1), skips, loader, scopes),
            ),
            Frag::UnescapedVariable(p) => spec_cat(
                spec_value_text(spec_resolve(p, scopes)),
                spec_render(frags.skip(1), skips, loader, scopes),
            ),
            Frag::Partial(name) => match spec_lookup(loader, name) {
                None => Err(name),
                Some(t) => {
                    if spec_remove_name(loader, name).len() < loader.len() {
                        match spec_render(t.frags, t.skips, spec_remove_name(loader, name), scopes) {
                            Err(e) => Err(e),
                            Ok(txt) => spec_cat(
                                txt,
                                spec_render(frags.skip(1), skips, loader, scopes),
                            ),
                        }
                    } else {
                        Err(name)
                    }
                },
            },
            Frag::Section(p) | Frag::InvertedSection(p) => {
                if skips.len() > 0 && 0 <= skips[0].fragments && 0 <= skips[0].sections && 1
                    + skips[0].fragments <= frags.len() && 1 + skips[0].sections <= skips.len() {
                    let nf = skips[0].fragments;
                    let ns = skips[0].sections;
                    let body_f = frags.subrange(1, 1 + nf);
                    let body_s = skips.subrange(1, 1 + ns);
                    let rest_f = frags.subrange(1 + nf, frags.len() as int);
                    let rest_s = skips.subrange(1 + ns, skips.len() as int);
                    let v = spec_resolve(p, scopes);
                    let this = if frags[0] is Section {
                        if spec_truthy(v) {
                            match v {
                                Val::Array(elems) => spec_render_each(
                                    elems,
                                    0,
                                    body_f,
                                    body_s,
                                    loader,
                                    scopes,
                                ),
                                _ => spec_render(body_f, body_s, loader, scopes.push(v)),
                            }
                        } else {
                            Ok(Seq::empty())
                        }
                    } else {
                        if !spec_truthy(v) {
                            spec_render(body_f, body_s, loader, scopes.push(v))
                        } else {
                            Ok(Seq::empty())
                        }
                    };
                    match this {
                        Err(e) => Err(e),
                        Ok(txt) => spec_cat(txt, spec_render(rest_f, rest_s, loader, scopes)),
                    }
                } else {
                    Ok(Seq::empty())
                }
            },
        }
    }
}

/// Rendering a section's body once per array element, each element
/// pushed as the innermost scope for its turn, outputs concatenated
/// in array order.
pub open spec fn spec_render_each(
    elems: Seq<Val>,
    k: int,
    frags: Seq<Frag>,
    skips: Seq<SkipV>,
    loader: Seq<(Seq<char>, TplV)>,
    scopes: Seq<Val>,
) -> Result<Seq<char>, Seq<char>>
    decreases loader.len(), frags.len(), 1int, elems.len() - k,
{
    if !(0 <= k < elems.len()) {
        Ok(Seq::empty())
    } else {
        match spec_render(frags, skips, loader, scopes.push(elems[k])) {
            Err(e) => Err(e),
            Ok(txt) => spec_cat(txt, spec_render_each(elems, k + 1, frags, skips, loader, scopes)),
        }
    }
}

/// The character sequences of a list of names.
pub open spec fn spec_names(v: Seq<String>) -> Seq<Seq<char>> {
    v.map_values(|s: String| s@)
}

fn visited_contains(visited: &Vec<String>, name: &str) -> (r: bool)
    ensures
        r == spec_names(visited@).contains(name@),
{
    let mut k: usize = 0;
    while k < visited.len()
        invariant
            k <= visited@.len(),
            forall|m: int| 0 <= m < k ==> spec_names(visited@)[m] != name@,
        decreases visited@.len() - k,
    {
        let vlen = name.unicode_len();
        if str_eq_sub(visited[k].as_str(), name, 0, vlen) {
            proof {
                assert(name@.subrange(0, vlen as int) =~= name@);
                assert(spec_names(visited@)[k as int] == name@);
            }
            return true;
        }
        proof {
            assert(name@.subrange(0, vlen as int) =~= name@);
        }
        k = k + 1;
    }
    proof {
        if spec_names(visited@).contains(name@) {
            let m = choose|m: int|
                0 <= m < spec_names(visited@).len() && spec_names(visited@)[m] == name@;
            assert(spec_names(visited@)[m] != name@);
        }
    }
    false
}

/// Renders the fragments `frags[flo..fhi]` with the skip entries
/// `skips[slo..shi]`, mirroring `spec_render` over what the loader
/// still serves outside the partials in `visited`. Output is
/// appended to `out`; the scope and visited stacks come back as they
/// went in, whether the render succeeds or fails.
#[verifier::loop_isolation(false)]
#[verifier::rlimit(100)]
#[verifier::spinoff_prover]
fn render_frags<L: TemplateLoader>(
    frags: &Vec<Fragment>,
    skips: &Vec<SectionSkip>,
    flo: usize,
    fhi: usize,
    slo: usize,
    shi: usize,
    loader: &L,
    scopes: &mut Vec<Value>,
    visited: &mut Vec<String>,
    out: &mut String,
) -> (r: Result<(), MoostacheError>)
    requires
        flo <= fhi <= frags@.len(),
        slo <= shi <= skips@.len(),
        block_wf(
            frags_view(frags@).subrange(flo as int, fhi as int),
            skips_view(skips@).subrange(slo as int, shi as int),
        ),
        old(scopes)@.len() > 0,
    ensures
        ({
            let rr = spec_render(
                frags_view(frags@).subrange(flo as int, fhi as int),
                skips_view(skips@).subrange(slo as int, shi as int),
                spec_avail(loader.templates(), spec_names(old(visited)@)),
                scopes_view(old(scopes)@),
            );
            match r {
                Ok(u) => {
                    &&& rr is Ok
                    &&& final(out)@ == old(out)@ + rr->Ok_0
                },
                Err(e) => rr is Err && e@ == ErrV::LoaderErrorTemplateNotFound(rr->Err_0),
            }
        }),
        final(scopes)@ == old(scopes)@,
        final(visited)@ == old(visited)@,
    decreases
            spec_avail(loader.templates(), spec_names(visited@)).len(),
            fhi - flo,
            0int,
            0int,
{
    let ghost rf = frags_view(frags@).subrange(flo as int, fhi as int);
    let ghost rs = skips_view(skips@).subrange(slo as int, shi as int);
    let ghost avail = spec_avail(loader.templates(), spec_names(visited@));
    if flo == fhi {
        proof {
            assert(out@ =~= out@ + spec_render(rf, rs, avail, scopes_view(scopes@))->Ok_0);
        }
        return Ok(());
    }
    proof {
        assert(rf[0] == frags@[flo as int]@);
        assert(rf.skip(1) =~= frags_view(frags@).subrange(flo + 1, fhi as int));
    }
    match &frags[flo] {
        Fragment::Literal(t) => {
            out.append(t.as_str());
            render_frags(frags, skips, flo + 1, fhi, slo, shi, loader, scopes, visited, out)
        },
        Fragment::EscapedVariable(p) => {
            let resolved = resolve_value(p.as_str(), scopes);
            let mut piece = String::new();
            write_value(&resolved, &mut piece);
            escape_into(piece.as_str(), out);
            render_frags(frags, skips, flo + 1, fhi, slo, shi, loader, scopes, visited, out)
        },
        Fragment::UnescapedVariable(p) => {
            let resolved = resolve_value(p.as_str(), scopes);
            write_value(&resolved, out);
            render_frags(frags, skips, flo + 1, fhi, slo, shi, loader, scopes, visited, out)
        },
        Fragment::Partial(name) => {
            if visited_contains(visited, name.as_str()) {
                proof {
                    lemma_avail_contains(loader.templates(), spec_names(visited@), name@);
                }
                return Err(MoostacheError::LoaderErrorTemplateNotFound(name.clone()));
            }
            proof {
                lemma_avail_not_contains(loader.templates(), spec_names(visited@), name@);
            }
            match loader.get(name.as_str()) {
                None => Err(MoostacheError::LoaderErrorTemplateNotFound(name.clone())),
                Some(t) => {
                    proof {
                        use_type_invariant(t);
                        lemma_remove_shrinks_pub(avail, name@);
                        lemma_avail_push(loader.templates(), spec_names(visited@), name@);
                    }
                    let tf = t.fragments();
                    let ts = t.skips();
                    let tflen = tf.len();
                    let tslen = ts.len();
                    visited.push(name.clone());
                    proof {
                        assert(spec_names(visited@) =~= spec_names(old(visited)@).push(name@));
                        assert(frags_view(tf@).subrange(0, tflen as int) =~= t@.frags);
                        assert(skips_view(ts@).subrange(0, tslen as int) =~= t@.skips);
                    }
                    let sub = render_frags(
                        tf,
                        ts,
                        0,
                        tflen,
                        0,
                        tslen,
                        loader,
                        scopes,
                        visited,
                        out,
                    );
                    match sub {
                        Err(e) => {
                            visited.pop();
                            proof {
                                assert(visited@ =~= old(visited)@);
                            }
                            Err(e)
                        },
                        Ok(u) => {
                            visited.pop();
                            proof {
                                assert(visited@ =~= old(visited)@);
                            }
                            render_frags(
                                frags,
                                skips,
                                flo + 1,
                                fhi,
                                slo,
                                shi,
                                loader,
                                scopes,
                                visited,
                                out,
                            )
                        },
                    }
                },
            }
        },
        Fragment::Section(p) => {
            let nf = skips[slo].nested_fragments as usize;
            let ns = skips[slo].nested_sections as usize;
            proof {
                assert(rs[0] == skips@[slo as int]@);
                assert(rf.subrange(1, 1 + nf) =~= frags_view(frags@).subrange(
                    flo + 1,
                    flo + 1 + nf,
                ));
                assert(rs.subrange(1, 1 + ns) =~= skips_view(skips@).subrange(
                    slo + 1,
                    slo + 1 + ns,
                ));
                assert(rf.subrange(1 + nf, rf.len() as int) =~= frags_view(frags@).subrange(
                    flo + 1 + nf,
                    fhi as int,
                ));
                assert(rs.subrange(1 + ns, rs.len() as int) =~= skips_view(skips@).subrange(
                    slo + 1 + ns,
                    shi as int,
                ));
            }
            let resolved = resolve_value(p.as_str(), scopes);
            if is_truthy(&resolved) {
                match resolved {
                    Value::Array(items) => {
                        let outcome = render_each(
                            &items,
                            0,
                            frags,
                            skips,
                            flo + 1,
                            flo + 1 + nf,
                            slo + 1,
                            slo + 1 + ns,
                            loader,
                            scopes,
                            visited,
                            out,
                        );
                        proof {
                            assert(val_of(Value::Array(items))->Array_0 =~= items@.map_values(
                                |x: Value| val_of(x),
                            ));
                        }
                        match outcome {
                            Err(e) => {
                                return Err(e);
                            },
                            Ok(u) => {},
                        }
                    },
                    other => {
                        let ghost rv = other@;
                        scopes.push(other);
                        proof {
                            assert(scopes_view(scopes@) =~= scopes_view(old(scopes)@).push(rv));
                        }
                        let outcome = render_frags(
                            frags,
                            skips,
                            flo + 1,
                            flo + 1 + nf,
                            slo + 1,
                            slo + 1 + ns,
                            loader,
                            scopes,
                            visited,
                            out,
                        );
                        match outcome {
                            Err(e) => {
                                scopes.pop();
                                proof {
                                    assert(scopes@ =~= old(scopes)@);
                                }
                                return Err(e);
                            },
                            Ok(u) => {},
                        }
                        scopes.pop();
                        proof {
                            assert(scopes@ =~= old(scopes)@);
                        }
                    },
                }
            }
            render_frags(
                frags,
                skips,
                flo + 1 + nf,
                fhi,
                slo + 1 + ns,
                shi,
                loader,
                scopes,
                visited,
                out,
            )
        },
        Fragment::InvertedSection(p) => {
            let nf = skips[slo].nested_fragments as usize;
            let ns = skips[slo].nested_sections as usize;
            proof {
                assert(rs[0] == skips@[slo as int]@);
                assert(rf.subrange(1, 1 + nf) =~= frags_view(frags@).subrange(
                    flo + 1,
                    flo + 1 + nf,
                ));
                assert(rs.subrange(1, 1 + ns) =~= skips_view(skips@).subrange(
                    slo + 1,
                    slo + 1 + ns,
                ));
                assert(rf.subrange(1 + nf, rf.len() as int) =~= frags_view(frags@).subrange(
                    flo + 1 + nf,
                    fhi as int,
                ));
                assert(rs.subrange(1 + ns, rs.len() as int) =~= skips_view(skips@).subrange(
                    slo + 1 + ns,
                    shi as int,
                ));
            }
            let resolved = resolve_value(p.as_str(), scopes);
            if !is_truthy(&resolved) {
                let ghost rv = resolved@;
                scopes.push(resolved);
                proof {
                    assert(scopes_view(scopes@) =~= scopes_view(old(scopes)@).push(rv));
                }
                let outcome = render_frags(
                    frags,
                    skips,
                    flo + 1,
                    flo + 1 + nf,
                    slo + 1,
                    slo + 1 + ns,
                    loader,
                    scopes,
                    visited,
                    out,
                );
                match outcome {
                    Err(e) => {
                        scopes.pop();
                        proof {
                            assert(scopes@ =~= old(scopes)@);
                        }
                        return Err(e);
                    },
                    Ok(u) => {},
                }
                scopes.pop();
                proof {
                    assert(scopes@ =~= old(scopes)@);
                }
            }
            render_frags(
                frags,
                skips,
                flo + 1 + nf,
                fhi,
                slo + 1 + ns,
                shi,
                loader,
                scopes,
                visited,
                out,
            )
        },
    }
}

/// Renders a section's body once per element of an array, mirroring
/// `spec_render_each`.
#[verifier::loop_isolation(false)]
fn render_each<L: TemplateLoader>(
    items: &Vec<Value>,
    k: usize,
    frags: &Vec<Fragment>,
    skips: &Vec<SectionSkip>,
    flo: usize,
    fhi: usize,
    slo: usize,
    shi: usize,
    loader: &L,
    scopes: &mut Vec<Value>,
    visited: &mut Vec<String>,
    out: &mut String,
) -> (r: Result<(), MoostacheError>)
    requires
        k <= items@.len(),
        flo <= fhi <= frags@.len(),
        slo <= shi <= skips@.len(),
        block_wf(
            frags_view(frags@).subrange(flo as int, fhi as int),
            skips_view(skips@).subrange(slo as int, shi as int),
        ),
        old(scopes)@.len() > 0,
    ensures
        ({
            let rr = spec_render_each(
                items@.map_values(|x: Value| val_of(x)),
                k as int,
                frags_view(frags@).subrange(flo as int, fhi as int),
                skips_view(skips@).subrange(slo as int, shi as int),
                spec_avail(loader.templates(), spec_names(old(visited)@)),
                scopes_view(old(scopes)@),
            );
            match r {
                Ok(u) => {
                    &&& rr is Ok
                    &&& final(out)@ == old(out)@ + rr->Ok_0
                },
                Err(e) => rr is Err && e@ == ErrV::LoaderErrorTemplateNotFound(rr->Err_0),
            }
        }),
        final(scopes)@ == old(scopes)@,
        final(visited)@ == old(visited)@,
    decreases
            spec_avail(loader.templates(), spec_names(visited@)).len(),
            fhi - flo,
            1int,
            items@.len() - k,
{
    let ghost ev = items@.map_values(|x: Value| val_of(x));
    if k == items.len() {
        proof {
            let rr = spec_render_each(
                ev,
                k as int,
                frags_view(frags@).subrange(flo as int, fhi as int),
                skips_view(skips@).subrange(slo as int, shi as int),
                spec_avail(loader.templates(), spec_names(visited@)),
                scopes_view(scopes@),
            );
            assert(out@ =~= out@ + rr->Ok_0);
        }
        return Ok(());
    }
    let elem = items[k].duplicate();
    scopes.push(elem);
    proof {
        assert(scopes_view(scopes@) =~= scopes_view(old(scopes)@).push(ev[k as int]));
    }
    let outcome = render_frags(frags, skips, flo, fhi, slo, shi, loader, scopes, visited, out);
    match outcome {
        Err(e) => {
            scopes.pop();
            proof {
                assert(scopes@ =~= old(scopes)@);
            }
            return Err(e);
        },
        Ok(u) => {},
    }
    scopes.pop();
    proof {
        assert(scopes@ =~= old(scopes)@);
    }
    render_each(items, k + 1, frags, skips, flo, fhi, slo, shi, loader, scopes, visited, out)
}

impl Template {
    /// Renders this template against a data value, partials served
    /// by the loader, and returns the output text. The output is
    /// exactly what `spec_render` says for this template's fragments
    /// over the loader's templates, with the value as the only
    /// scope; the one error is a partial the loader does not serve,
    /// named in the error.
    pub fn render_to_string<L: TemplateLoader>(&self, loader: &L, value: &Value) -> (r: Result<
        String,
        MoostacheError,
    >)
        ensures
            ({
                let rr = spec_render(self@.frags, self@.skips, loader.templates(), seq![value@]);
                match r {
                    Ok(s) => rr is Ok && s@ == rr->Ok_0,
                    Err(e) => rr is Err && e@ == ErrV::LoaderErrorTemplateNotFound(rr->Err_0),
                }
            }),
    {
        proof {
            use_type_invariant(self);
        }
        let mut scopes: Vec<Value> = Vec::new();
        scopes.push(value.duplicate());
        let mut visited: Vec<String> = Vec::new();
        let mut out = String::new();
        let fl = self.fragments.len();
        let sl = self.skips.len();
        proof {
            assert(frags_view(self.fragments@).subrange(0, fl as int) =~= self@.frags);
            assert(skips_view(self.skips@).subrange(0, sl as int) =~= self@.skips);
            assert(spec_names(visited@) =~= Seq::<Seq<char>>::empty());
            assert(scopes_view(scopes@) =~= seq![value@]);
        }
        match render_frags(
            &self.fragments,
            &self.skips,
            0,
            fl,
            0,
            sl,
            loader,
            &mut scopes,
            &mut visited,
            &mut out,
        ) {
            Ok(u) => Ok(out),
            Err(e) => Err(e),
        }
    }

    /// Renders this template against a data value with the null
    /// loader: any partial tag fails with the not-found error that
    /// names it.
    pub fn render_no_partials_to_string(&self, value: &Value) -> (r: Result<
        String,
        MoostacheError,
    >)
        ensures
            ({
                let rr = spec_render(self@.frags, self@.skips, Seq::empty(), seq![value@]);
                match r {
                    Ok(s) => rr is Ok && s@ == rr->Ok_0,
                    Err(e) => rr is Err && e@ == ErrV::LoaderErrorTemplateNotFound(rr->Err_0),
                }
            }),
    {
        self.render_to_string(&(), value)
    }
}

/// Renders the loader's template of the given name against a data
/// value: the template is fetched and rendered with the same loader
/// serving its partials.
pub fn render_to_string<L: TemplateLoader>(loader: &L, name: &str, value: &Value) -> (r: Result<
    String,
    MoostacheError,
>)
    ensures
        ({
            match spec_lookup(loader.templates(), name@) {
                None => r is Err && r->Err_0@ == ErrV::LoaderErrorTemplateNotFound(name@),
                Some(t) => {
                    let rr = spec_render(t.frags, t.skips, loader.templates(), seq![value@]);
                    match r {
                        Ok(s) => rr is Ok && s@ == rr->Ok_0,
                        Err(e) => rr is Err && e@ == ErrV::LoaderErrorTemplateNotFound(rr->Err_0),
                    }
                },
            }
        }),
{
    match loader.get(name) {
        None => Err(MoostacheError::LoaderErrorTemplateNotFound(String::from_str(name))),
        Some(t) => t.render_to_string(loader, value),
    }
}

/// A loader that serves at least the other's templates: every name
/// the smaller one serves, the larger one serves with the same
/// template.
pub open spec fn spec_serves_at_least(
    small: Seq<(Seq<char>, TplV)>,
    large: Seq<(Seq<char>, TplV)>,
) -> bool {
    forall|n: Seq<char>|
        #[trigger] spec_lookup(small, n) is Some ==> spec_lookup(large, n) == spec_lookup(small, n)
}

/// A render that succeeds with a loader keeps its output under any
/// loader that serves at least the same templates.
pub proof fn lemma_render_monotonic(
    frags: Seq<Frag>,
    skips: Seq<SkipV>,
    small: Seq<(Seq<char>, TplV)>,
    large: Seq<(Seq<char>, TplV)>,
    scopes: Seq<Val>,
)
    requires
        spec_serves_at_least(small, large),
        spec_render(frags, skips, small, scopes) is Ok,
    ensures
        spec_render(frags, skips, large, scopes) == spec_render(frags, skips, small, scopes),
    decreases small.len(), frags.len(), 0int, 0int,
{
    if frags.len() == 0 {
    } else {
        match frags[0] {
            Frag::Literal(t) => {
                lemma_render_monotonic(frags.skip(1), skips, small, large, scopes);
            },
            Frag::EscapedVariable(q) => {
                lemma_render_monotonic(frags.skip(1), skips, small, large, scopes);
            },
            Frag::UnescapedVariable(q) => {
                lemma_render_monotonic(frags.skip(1), skips, small, large, scopes);
            },
            Frag::Partial(name) => {
                let t = spec_lookup(small, name)->0;
                assert(spec_lookup(small, name) is Some);
                assert(spec_lookup(large, name) == spec_lookup(small, name));
                lemma_remove_shrinks_pub(small, name);
                lemma_remove_shrinks_pub(large, name);
                assert(spec_serves_at_least(
                    spec_remove_name(small, name),
                    spec_remove_name(large, name),
                )) by {
                    assert forall|n: Seq<char>|
                        #[trigger] spec_lookup(spec_remove_name(small, name), n)
                            is Some implies spec_lookup(spec_remove_name(large, name), n)
                        == spec_lookup(spec_remove_name(small, name), n) by {
                        lemma_lookup_remove_self(small, name);
                        assert(n != name);
                        lemma_lookup_remove_other(small, name, n);
                        lemma_lookup_remove_other(large, name, n);
                    }
                }
                lemma_render_monotonic(
                    t.frags,
                    t.skips,
                    spec_remove_name(small, name),
                    spec_remove_name(large, name),
                    scopes,
                );
                lemma_render_monotonic(frags.skip(1), skips, small, large, scopes);
            },
            Frag::Section(q) | Frag::InvertedSection(q) => {
                if skips.len() > 0 && 0 <= skips[0].fragments && 0 <= skips[0].sections && 1
                    + skips[0].fragments <= frags.len() && 1 + skips[0].sections <= skips.len() {
                    let nf = skips[0].fragments;
                    let ns = skips[0].sections;
                    let body_f = frags.subrange(1, 1 + nf);
                    let body_s = skips.subrange(1, 1 + ns);
                    let rest_f = frags.subrange(1 + nf, frags.len() as int);
                    let rest_s = skips.subrange(1 + ns, skips.len() as int);
                    let v = spec_resolve(q, scopes);
                    if frags[0] is Section && spec_truthy(v) {
                        match v {
                            Val::Array(elems) => {
                                lemma_render_each_monotonic(
                                    elems,
                                    0,
                                    body_f,
                                    body_s,
                                    small,
                                    large,
                                    scopes,
                                );
                            },
                            _ => {
                                lemma_render_monotonic(
                                    body_f,
                                    body_s,
                                    small,
                                    large,
                                    scopes.push(v),
                                );
                            },
                        }
                    } else if frags[0] is InvertedSection && !spec_truthy(v) {
                        lemma_render_monotonic(body_f, body_s, small, large, scopes.push(v));
                    }
                    lemma_render_monotonic(rest_f, rest_s, small, large, scopes);
                }
            },
        }
    }
}

proof fn lemma_render_each_monotonic(
    elems: Seq<Val>,
    k: int,
    frags: Seq<Frag>,
    skips: Seq<SkipV>,
    small: Seq<(Seq<char>, TplV)>,
    large: Seq<(Seq<char>, TplV)>,
    scopes: Seq<Val>,
)
    requires
        spec_serves_at_least(small, large),
        spec_render_each(elems, k, frags, skips, small, scopes) is Ok,
    ensures
        spec_render_each(elems, k, frags, skips, large, scopes) == spec_render_each(
            elems,
            k,
            frags,
            skips,
            small,
            scopes,
        ),
    decreases small.len(), frags.len(), 1int, elems.len() - k,
{
    if 0 <= k < elems.len() {
        lemma_render_monotonic(frags, skips, small, large, scopes.push(elems[k]));
        lemma_render_each_monotonic(elems, k + 1, frags, skips, small, large, scopes);
    }
}

} // verus!
