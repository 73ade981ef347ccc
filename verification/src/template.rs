use vstd::prelude::*;

verus! {

/// Mathematical model of a fragment: each text as a sequence of
/// characters. A variable fragment carries its dotted path, a section
/// fragment the path its truthiness is read from, a partial the name
/// of the template to inline.
pub enum Frag {
    Literal(Seq<char>),
    EscapedVariable(Seq<char>),
    UnescapedVariable(Seq<char>),
    Section(Seq<char>),
    InvertedSection(Seq<char>),
    Partial(Seq<char>),
}

/// One unit of compiled template output: raw text to emit, a variable
/// to resolve and write (escaped or raw), a section or inverted
/// section to enter, or a partial to inline. Sections have no end
/// fragment; the parallel skip table records their extent.
#[derive(Debug, PartialEq)]
pub enum Fragment {
    Literal(String),
    EscapedVariable(String),
    UnescapedVariable(String),
    Section(String),
    InvertedSection(String),
    Partial(String),
}

impl View for Fragment {
    type V = Frag;

    open spec fn view(&self) -> Frag {
        match self {
            Fragment::Literal(s) => Frag::Literal(s@),
            Fragment::EscapedVariable(s) => Frag::EscapedVariable(s@),
            Fragment::UnescapedVariable(s) => Frag::UnescapedVariable(s@),
            Fragment::Section(s) => Frag::Section(s@),
            Fragment::InvertedSection(s) => Frag::InvertedSection(s@),
            Fragment::Partial(s) => Frag::Partial(s@),
        }
    }
}

/// Mathematical model of a skip table entry.
pub struct SkipV {
    pub sections: int,
    pub fragments: int,
}

/// One entry of the skip table. The k-th entry describes the k-th
/// section-or-inverted-section fragment in source order: how many of
/// the fragments that follow it belong to its body, and how many of
/// those are themselves sections.
#[derive(Debug, PartialEq, Eq, Structural, Clone, Copy)]
pub struct SectionSkip {
    /// Number of sections nested inside this section's body.
    pub nested_sections: u16,
    /// Number of fragments in this section's body, those of nested
    /// sections included.
    pub nested_fragments: u16,
}

impl View for SectionSkip {
    type V = SkipV;

    open spec fn view(&self) -> SkipV {
        SkipV { sections: self.nested_sections as int, fragments: self.nested_fragments as int }
    }
}

/// Whether a fragment model is a section or inverted section, the two
/// kinds that own a skip table entry.
pub open spec fn is_section_frag(f: Frag) -> bool {
    f is Section || f is InvertedSection
}

/// The models of a fragment list.
pub open spec fn frags_view(v: Seq<Fragment>) -> Seq<Frag> {
    v.map_values(|f: Fragment| f@)
}

/// The models of a skip table.
pub open spec fn skips_view(v: Seq<SectionSkip>) -> Seq<SkipV> {
    v.map_values(|k: SectionSkip| k@)
}

/// Mathematical model of a compiled template: its fragment list and
/// skip table.
pub struct TplV {
    pub frags: Seq<Frag>,
    pub skips: Seq<SkipV>,
}

/// Structural consistency of a fragment list with its skip table: the
/// list splits into items, where an item is either one non-section
/// fragment, or a section fragment whose skip entry measures a body
/// that is itself consistent, followed in either case by a consistent
/// remainder. The skip table holds exactly one entry per section, in
/// source order.
pub open spec fn block_wf(frags: Seq<Frag>, skips: Seq<SkipV>) -> bool
    decreases frags.len(),
{
    if frags.len() == 0 {
        skips.len() == 0
    } else if is_section_frag(frags[0]) {
        &&& skips.len() > 0
        &&& {
            let nf = skips[0].fragments;
            let ns = skips[0].sections;
            &&& 0 <= nf
            &&& 0 <= ns
            &&& 1 + nf <= frags.len()
            &&& 1 + ns <= skips.len()
            &&& block_wf(frags.subrange(1, 1 + nf), skips.subrange(1, 1 + ns))
            &&& block_wf(
                frags.subrange(1 + nf, frags.len() as int),
                skips.subrange(1 + ns, skips.len() as int),
            )
        }
    } else {
        block_wf(frags.subrange(1, frags.len() as int), skips)
    }
}

/// A compiled template: a fragment list and the skip table that
/// records where each section's body ends.
#[derive(Debug, PartialEq)]
pub struct Template {
    pub(crate) fragments: Vec<Fragment>,
    pub(crate) skips: Vec<SectionSkip>,
}

impl View for Template {
    type V = TplV;

    open(crate) spec fn view(&self) -> TplV {
        TplV { frags: frags_view(self.fragments@), skips: skips_view(self.skips@) }
    }
}

impl Template {
    /// Structural consistency of this template's fragment list with
    /// its skip table. Every template the parser returns satisfies
    /// it; the renderer relies on it.
    #[verifier::type_invariant]
    pub open spec fn wf(&self) -> bool {
        block_wf(self@.frags, self@.skips)
    }

    /// The compiled fragment list, in source order.
    pub fn fragments(&self) -> (r: &Vec<Fragment>)
        ensures
            frags_view(r@) == self@.frags,
    {
        &self.fragments
    }

    /// The skip table, one entry per section or inverted section, in
    /// source order.
    pub fn skips(&self) -> (r: &Vec<SectionSkip>)
        ensures
            skips_view(r@) == self@.skips,
    {
        &self.skips
    }

    /// An exact copy of this template.
    pub fn duplicate(&self) -> (r: Template)
        ensures
            r@ == self@,
    {
        proof {
            use_type_invariant(self);
        }
        let mut fragments: Vec<Fragment> = Vec::new();
        let mut i: usize = 0;
        while i < self.fragments.len()
            invariant
                i == fragments@.len(),
                i <= self.fragments@.len(),
                forall|k: int| 0 <= k < i ==> fragments@[k]@ == self.fragments@[k]@,
            decreases self.fragments@.len() - i,
        {
            let copy = match &self.fragments[i] {
                Fragment::Literal(t) => Fragment::Literal(t.clone()),
                Fragment::EscapedVariable(t) => Fragment::EscapedVariable(t.clone()),
                Fragment::UnescapedVariable(t) => Fragment::UnescapedVariable(t.clone()),
                Fragment::Section(t) => Fragment::Section(t.clone()),
                Fragment::InvertedSection(t) => Fragment::InvertedSection(t.clone()),
                Fragment::Partial(t) => Fragment::Partial(t.clone()),
            };
            fragments.push(copy);
            i = i + 1;
        }
        let mut skips: Vec<SectionSkip> = Vec::new();
        let mut j: usize = 0;
        while j < self.skips.len()
            invariant
                j == skips@.len(),
                j <= self.skips@.len(),
                forall|k: int| 0 <= k < j ==> skips@[k] == self.skips@[k],
            decreases self.skips@.len() - j,
        {
            skips.push(self.skips[j]);
            j = j + 1;
        }
        proof {
            assert(frags_view(fragments@) =~= frags_view(self.fragments@));
            assert(skips_view(skips@) =~= skips_view(self.skips@));
        }
        Template { fragments, skips }
    }
}

} // verus!
