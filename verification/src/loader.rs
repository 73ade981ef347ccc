use crate::errors::{spec_with_name, ErrV, MoostacheError};
use crate::parse::spec_parse;
use crate::render::{spec_lookup, spec_remove_name, spec_replace, TemplateLoader};
use crate::template::{Template, TplV};
use vstd::prelude::*;

verus! {

/// Settings a loader is built from: where template files live, the
/// extension that marks them, and how many compiled templates may be
/// held in memory at once.
#[derive(Debug, Clone, PartialEq)]
pub struct LoaderConfig<'a> {
    /// Directory to load templates from.
    pub templates_directory: &'a str,
    /// File extension of template files.
    pub templates_extension: &'a str,
    /// Greatest number of compiled templates held in memory.
    pub cache_size: usize,
}

/// A directory normalized to end with the path separator.
pub open spec fn spec_norm_dir(d: Seq<char>) -> Seq<char> {
    if d.len() > 0 && d.last() == '/' {
        d
    } else {
        d.push('/')
    }
}

/// An extension normalized to start with a dot.
pub open spec fn spec_norm_ext(e: Seq<char>) -> Seq<char> {
    if e.len() > 0 && e[0] == '.' {
        e
    } else {
        seq!['.'] + e
    }
}

impl Default for LoaderConfig<'_> {
    /// The default settings: templates under `./templates/`, files
    /// ending in `.html`, and room for two hundred compiled
    /// templates.
    fn default() -> (r: Self)
        ensures
            r.templates_directory@ == "./templates/"@,
            r.templates_extension@ == ".html"@,
            r.cache_size == 200,
    {
        LoaderConfig {
            templates_directory: "./templates/",
            templates_extension: ".html",
            cache_size: 200,
        }
    }
}

impl LoaderConfig<'_> {
    /// The normalized directory and extension, and the cache size,
    /// which must be positive.
    pub fn validate(&self) -> (r: Result<(String, String, usize), MoostacheError>)
        ensures
            match r {
                Ok((d, e, c)) => {
                    &&& self.cache_size > 0
                    &&& d@ == spec_norm_dir(self.templates_directory@)
                    &&& e@ == spec_norm_ext(self.templates_extension@)
                    &&& c == self.cache_size
                },
                Err(err) => self.cache_size == 0 && err@ == ErrV::ConfigErrorNonPositiveCacheSize,
            },
    {
        let mut dir = String::from_str(self.templates_directory);
        let dlen = dir.as_str().unicode_len();
        if dlen == 0 || dir.as_str().get_char(dlen - 1) != '/' {
            dir.append("/");
            proof {
                reveal_strlit("/");
                assert("/"@ =~= seq!['/']);
                assert(dir@ =~= spec_norm_dir(self.templates_directory@));
            }
        }
        let mut ext = String::from_str(self.templates_extension);
        let elen = ext.as_str().unicode_len();
        if elen == 0 || ext.as_str().get_char(0) != '.' {
            let mut dotted = String::from_str(".");
            dotted.append(ext.as_str());
            ext = dotted;
            proof {
                reveal_strlit(".");
                assert("."@ =~= seq!['.']);
                assert(ext@ =~= spec_norm_ext(self.templates_extension@));
            }
        }
        if self.cache_size == 0 {
            return Err(MoostacheError::ConfigErrorNonPositiveCacheSize);
        }
        Ok((dir, ext, self.cache_size))
    }
}

/// The template name a file stands for: the path with the directory
/// prefix and extension suffix removed, when the path carries both;
/// nothing otherwise.
pub open spec fn spec_template_name(path: Seq<char>, dir: Seq<char>, ext: Seq<char>) -> Option<
    Seq<char>,
> {
    if path.len() >= dir.len() + ext.len() && path.take(dir.len() as int) == dir && path.skip(
        path.len() - ext.len(),
    ) == ext {
        Some(path.subrange(dir.len() as int, path.len() - ext.len()))
    } else {
        None
    }
}

/// The name a template file stands for under a loader's directory
/// and extension: what is left of the path when the directory prefix
/// and the extension suffix are stripped.
pub fn template_name_of_path(path: &str, dir: &str, ext: &str) -> (r: Option<String>)
    ensures
        match r {
            Some(n) => spec_template_name(path@, dir@, ext@) == Some(n@),
            None => spec_template_name(path@, dir@, ext@) is None,
        },
{
    let plen = path.unicode_len();
    let dlen = dir.unicode_len();
    let elen = ext.unicode_len();
    if plen < dlen || plen - dlen < elen {
        return None;
    }
    if !crate::resolve::str_eq_sub(dir, path, 0, dlen) {
        proof {
            assert(path@.take(dlen as int) =~= path@.subrange(0, dlen as int));
        }
        return None;
    }
    if !crate::resolve::str_eq_sub(ext, path, plen - elen, plen) {
        proof {
            assert(path@.skip(plen - elen) =~= path@.subrange(plen - elen, plen as int));
        }
        return None;
    }
    let name = path.substring_char(dlen, plen - elen).to_owned();
    proof {
        assert(path@.take(dlen as int) =~= path@.subrange(0, dlen as int));
        assert(path@.skip(plen - elen) =~= path@.subrange(plen - elen, plen as int));
    }
    Some(name)
}

/// An eager loader: every template parsed up front and held in
/// memory, names unique.
#[derive(Debug)]
pub struct HashMapLoader {
    pub(crate) templates: Vec<(String, Template)>,
}

/// The models of a loader's entries.
pub open spec fn entries_view(v: Seq<(String, Template)>) -> Seq<(Seq<char>, TplV)> {
    v.map_values(|e: (String, Template)| (e.0@, e.1@))
}

impl HashMapLoader {
    /// No two entries share a name.
    #[verifier::type_invariant]
    pub open(crate) spec fn wf(&self) -> bool {
        forall|i: int, j: int|
            0 <= i < j < self.templates@.len() ==> (#[trigger] self.templates@[i]).0@ != (
            #[trigger] self.templates@[j]).0@
    }

    /// The index of the entry with this name, if one exists.
    fn position_of(&self, name: &str) -> (r: Option<usize>)
        ensures
            match r {
                Some(i) => {
                    &&& i < self.templates@.len()
                    &&& self.templates@[i as int].0@ == name@
                    &&& forall|j: int| 0 <= j < i ==> (#[trigger] self.templates@[j]).0@ != name@
                },
                None => forall|j: int|
                    0 <= j < self.templates@.len() ==> (#[trigger] self.templates@[j]).0@ != name@,
            },
    {
        let nlen = name.unicode_len();
        let mut i: usize = 0;
        while i < self.templates.len()
            invariant
                i <= self.templates@.len(),
                nlen == name@.len(),
                forall|j: int| 0 <= j < i ==> (#[trigger] self.templates@[j]).0@ != name@,
            decreases self.templates@.len() - i,
        {
            if crate::resolve::str_eq_sub(self.templates[i].0.as_str(), name, 0, nlen) {
                proof {
                    assert(name@.subrange(0, nlen as int) =~= name@);
                }
                return Some(i);
            }
            proof {
                assert(name@.subrange(0, nlen as int) =~= name@);
            }
            i = i + 1;
        }
        None
    }
}

proof fn lemma_lookup_at(l: Seq<(Seq<char>, TplV)>, name: Seq<char>, i: int)
    requires
        0 <= i < l.len(),
        l[i].0 == name,
        forall|j: int| 0 <= j < i ==> (#[trigger] l[j]).0 != name,
    ensures
        spec_lookup(l, name) == Some(l[i].1),
    decreases i,
{
    if i > 0 {
        assert(forall|j: int| 0 <= j < i - 1 ==> (#[trigger] l.skip(1)[j]).0 != name);
        lemma_lookup_at(l.skip(1), name, i - 1);
    }
}

proof fn lemma_lookup_absent(l: Seq<(Seq<char>, TplV)>, name: Seq<char>)
    requires
        forall|j: int| 0 <= j < l.len() ==> (#[trigger] l[j]).0 != name,
    ensures
        spec_lookup(l, name) is None,
    decreases l.len(),
{
    if l.len() > 0 {
        assert(forall|j: int| 0 <= j < l.len() - 1 ==> (#[trigger] l.skip(1)[j]).0 != name);
        lemma_lookup_absent(l.skip(1), name);
    }
}

proof fn lemma_replace_at(l: Seq<(Seq<char>, TplV)>, name: Seq<char>, t: TplV, i: int)
    requires
        0 <= i < l.len(),
        l[i].0 == name,
        forall|j: int| 0 <= j < i ==> (#[trigger] l[j]).0 != name,
    ensures
        spec_replace(l, name, t) =~= l.update(i, (name, t)),
    decreases i,
{
    if i == 0 {
        assert(spec_replace(l, name, t) =~= seq![(name, t)] + l.skip(1));
    } else {
        assert(forall|j: int| 0 <= j < i - 1 ==> (#[trigger] l.skip(1)[j]).0 != name);
        lemma_replace_at(l.skip(1), name, t, i - 1);
        assert(spec_replace(l, name, t) =~= seq![l[0]] + spec_replace(l.skip(1), name, t));
        assert(seq![l[0]] + l.skip(1).update(i - 1, (name, t)) =~= l.update(i, (name, t)));
    }
}

proof fn lemma_replace_append(l: Seq<(Seq<char>, TplV)>, name: Seq<char>, t: TplV)
    requires
        forall|j: int| 0 <= j < l.len() ==> (#[trigger] l[j]).0 != name,
    ensures
        spec_replace(l, name, t) =~= l.push((name, t)),
    decreases l.len(),
{
    if l.len() > 0 {
        assert(forall|j: int| 0 <= j < l.len() - 1 ==> (#[trigger] l.skip(1)[j]).0 != name);
        lemma_replace_append(l.skip(1), name, t);
        assert(spec_replace(l, name, t) =~= seq![l[0]] + spec_replace(l.skip(1), name, t));
        assert(seq![l[0]] + l.skip(1).push((name, t)) =~= l.push((name, t)));
    }
}

proof fn lemma_remove_name_at(l: Seq<(Seq<char>, TplV)>, name: Seq<char>, i: int)
    requires
        0 <= i < l.len(),
        l[i].0 == name,
        forall|j: int| 0 <= j < l.len() && j != i ==> (#[trigger] l[j]).0 != name,
    ensures
        spec_remove_name(l, name) =~= l.subrange(0, i) + l.subrange(i + 1, l.len() as int),
    decreases i,
{
    if i == 0 {
        assert(forall|j: int|
            0 <= j < l.skip(1).len() ==> (#[trigger] l.skip(1)[j]).0 != name) by {
            assert(forall|j: int| 0 <= j < l.skip(1).len() ==> l.skip(1)[j] == l[j + 1]);
        }
        lemma_remove_none(l.skip(1), name);
        assert(spec_remove_name(l, name) =~= l.skip(1));
        assert(l.subrange(0, 0) + l.subrange(1, l.len() as int) =~= l.skip(1));
    } else {
        assert(forall|j: int|
            0 <= j < l.skip(1).len() && j != i - 1 ==> (#[trigger] l.skip(1)[j]).0 != name) by {
            assert(forall|j: int| 0 <= j < l.skip(1).len() ==> l.skip(1)[j] == l[j + 1]);
        }
        lemma_remove_name_at(l.skip(1), name, i - 1);
        assert(spec_remove_name(l, name) =~= seq![l[0]] + spec_remove_name(l.skip(1), name));
        assert(seq![l[0]] + (l.skip(1).subrange(0, i - 1) + l.skip(1).subrange(
            i,
            l.skip(1).len() as int,
        )) =~= l.subrange(0, i) + l.subrange(i + 1, l.len() as int));
    }
}

proof fn lemma_remove_none(l: Seq<(Seq<char>, TplV)>, name: Seq<char>)
    requires
        forall|j: int| 0 <= j < l.len() ==> (#[trigger] l[j]).0 != name,
    ensures
        spec_remove_name(l, name) =~= l,
    decreases l.len(),
{
    if l.len() > 0 {
        assert(forall|j: int| 0 <= j < l.len() - 1 ==> (#[trigger] l.skip(1)[j]).0 != name);
        lemma_remove_none(l.skip(1), name);
        assert(spec_remove_name(l, name) =~= seq![l[0]] + spec_remove_name(l.skip(1), name));
        assert(seq![l[0]] + l.skip(1) =~= l);
    }
}

impl TemplateLoader for HashMapLoader {
    open(crate) spec fn templates(&self) -> Seq<(Seq<char>, TplV)> {
        entries_view(self.templates@)
    }

    open spec fn mutable(&self) -> bool {
        true
    }

    fn get(&self, name: &str) -> (r: Option<&Template>) {
        match self.position_of(name) {
            Some(i) => {
                proof {
                    lemma_lookup_at(self.templates(), name@, i as int);
                }
                Some(&self.templates[i].1)
            },
            None => {
                proof {
                    lemma_lookup_absent(self.templates(), name@);
                }
                None
            },
        }
    }

    fn insert(&mut self, name: String, value: Template) -> (r: Option<Template>) {
        proof {
            use_type_invariant(&*self);
        }
        let ghost nv = name@;
        let ghost vv = value@;
        match self.position_of(name.as_str()) {
            Some(i) => {
                proof {
                    lemma_lookup_at(old(self).templates(), nv, i as int);
                    lemma_replace_at(old(self).templates(), nv, vv, i as int);
                }
                let mut tv: Vec<(String, Template)> = Vec::new();
                core::mem::swap(&mut self.templates, &mut tv);
                let mut pair = (name, value);
                core::mem::swap(&mut tv[i], &mut pair);
                core::mem::swap(&mut self.templates, &mut tv);
                proof {
                    assert(entries_view(self.templates@) =~= entries_view(
                        old(self).templates@,
                    ).update(i as int, (nv, vv)));
                    assert(self.templates() =~= spec_replace(old(self).templates(), nv, vv));
                }
                Some(pair.1)
            },
            None => {
                proof {
                    lemma_lookup_absent(old(self).templates(), nv);
                    lemma_replace_append(old(self).templates(), nv, vv);
                }
                let mut tv: Vec<(String, Template)> = Vec::new();
                core::mem::swap(&mut self.templates, &mut tv);
                tv.push((name, value));
                core::mem::swap(&mut self.templates, &mut tv);
                proof {
                    assert(entries_view(self.templates@) =~= entries_view(
                        old(self).templates@,
                    ).push((nv, vv)));
                }
                None
            },
        }
    }

    fn remove(&mut self, name: &str) -> (r: Option<Template>) {
        proof {
            use_type_invariant(&*self);
        }
        match self.position_of(name) {
            Some(i) => {
                proof {
                    lemma_lookup_at(old(self).templates(), name@, i as int);
                    assert(forall|j: int|
                        0 <= j < old(self).templates().len() && j != i ==> (#[trigger] old(
                            self,
                        ).templates()[j]).0 != name@);
                    lemma_remove_name_at(old(self).templates(), name@, i as int);
                }
                let mut tv: Vec<(String, Template)> = Vec::new();
                core::mem::swap(&mut self.templates, &mut tv);
                let pair = tv.remove(i);
                core::mem::swap(&mut self.templates, &mut tv);
                proof {
                    assert(entries_view(self.templates@) =~= entries_view(
                        old(self).templates@,
                    ).subrange(0, i as int) + entries_view(old(self).templates@).subrange(
                        i + 1,
                        old(self).templates@.len() as int,
                    ));
                }
                Some(pair.1)
            },
            None => {
                proof {
                    lemma_lookup_absent(old(self).templates(), name@);
                    lemma_remove_none(old(self).templates(), name@);
                }
                None
            },
        }
    }
}

/// The loaders built from a list of name-and-source pairs, parsed in
/// order: the result of parsing each source, stored under its name,
/// later pairs replacing earlier ones of the same name. The first
/// parse failure is the result, carrying the offending name; a pair
/// whose index reaches `limit` makes the count of loaded templates
/// exceed the cache size, which is an error of its own.
pub open spec fn spec_load(ps: Seq<(Seq<char>, Seq<char>)>, limit: int) -> Result<
    Seq<(Seq<char>, TplV)>,
    ErrV,
>
    decreases ps.len(),
{
    if ps.len() == 0 {
        Ok(Seq::empty())
    } else {
        match spec_load(ps.drop_last(), limit) {
            Err(e) => Err(e),
            Ok(m) => match spec_parse(ps.last().1) {
                Err(pe) => Err(spec_with_name(pe, ps.last().0)),
                Ok(t) => if ps.len() > limit {
                    Err(ErrV::ConfigErrorTooManyTemplates)
                } else {
                    Ok(spec_replace(m, ps.last().0, t))
                },
            },
        }
    }
}

/// The models of a list of name-and-source pairs.
pub open spec fn pairs_view(v: Seq<(String, String)>) -> Seq<(Seq<char>, Seq<char>)> {
    v.map_values(|p: (String, String)| (p.0@, p.1@))
}

/// Every parse error carries a template name.
proof fn lemma_parse_block_err_carries(s: Seq<char>, i: int)
    requires
        crate::parse::spec_parse_block(s, i) is Err,
    ensures
        crate::errors::spec_carries_name(crate::parse::spec_parse_block(s, i)->Err_0),
    decreases s.len() - i,
{
    let len = s.len() as int;
    if !(0 <= i && i < len) {
    } else if crate::parse::spec_open_at(s, i) {
        if i + 2 < len && s[i + 2] == '/' {
        } else if i + 2 < len && (s[i + 2] == '#' || s[i + 2] == '^') {
            match crate::parse::spec_var_path(s, i + 3) {
                None => {},
                Some((lo, hi, j)) => {
                    if crate::parse::spec_close_at(s, j) && i < j + 2 && j + 2 <= len {
                        if crate::parse::spec_parse_block(s, j + 2) is Err {
                            lemma_parse_block_err_carries(s, j + 2);
                        } else {
                            let body = crate::parse::spec_parse_block(s, j + 2)->Ok_0;
                            if body.close is Some && body.close->0 == s.subrange(lo, hi)
                                && body.frags.len() <= 65535 && body.skips.len() <= 65535 && i
                                < body.end && body.end <= len {
                                if crate::parse::spec_parse_block(s, body.end) is Err {
                                    lemma_parse_block_err_carries(s, body.end);
                                }
                            }
                        }
                    }
                },
            }
        } else if i + 2 < len && s[i + 2] == '{' {
            match crate::parse::spec_var_path(s, i + 3) {
                None => {},
                Some((lo, hi, j)) => {
                    if crate::parse::spec_close3_at(s, j) && i < j + 3 && j + 3 <= len {
                        if crate::parse::spec_parse_block(s, j + 3) is Err {
                            lemma_parse_block_err_carries(s, j + 3);
                        }
                    }
                },
            }
        } else if i + 2 < len && s[i + 2] == '!' {
            let k = crate::parse::spec_find_close(s, i + 3);
            if k < len && i < k + 2 && k + 2 <= len {
                if crate::parse::spec_parse_block(s, k + 2) is Err {
                    lemma_parse_block_err_carries(s, k + 2);
                }
            }
        } else if i + 2 < len && s[i + 2] == '>' {
            match crate::parse::spec_file_path(s, i + 3) {
                None => {},
                Some((lo, hi, j)) => {
                    if crate::parse::spec_close_at(s, j) && i < j + 2 && j + 2 <= len {
                        if crate::parse::spec_parse_block(s, j + 2) is Err {
                            lemma_parse_block_err_carries(s, j + 2);
                        }
                    }
                },
            }
        } else {
            match crate::parse::spec_var_path(s, i + 2) {
                None => {},
                Some((lo, hi, j)) => {
                    if crate::parse::spec_close_at(s, j) && i < j + 2 && j + 2 <= len {
                        if crate::parse::spec_parse_block(s, j + 2) is Err {
                            lemma_parse_block_err_carries(s, j + 2);
                        }
                    }
                },
            }
        }
    } else {
        let k = crate::parse::spec_find_open(s, i);
        if i < k && k <= len {
            if crate::parse::spec_parse_block(s, k) is Err {
                lemma_parse_block_err_carries(s, k);
            }
        }
    }
}

/// Every error the parse of a whole source yields carries a template
/// name.
pub proof fn lemma_parse_err_carries(s: Seq<char>)
    requires
        spec_parse(s) is Err,
    ensures
        crate::errors::spec_carries_name(spec_parse(s)->Err_0),
{
    if s.len() > 0 {
        if crate::parse::spec_parse_block(s, 0) is Err {
            lemma_parse_block_err_carries(s, 0);
        }
    }
}

/// Once a prefix of the pairs fails to load, the whole list fails
/// the same way.
proof fn lemma_load_err_mono(ps: Seq<(Seq<char>, Seq<char>)>, limit: int, j: int)
    requires
        0 <= j <= ps.len(),
        spec_load(ps.take(j), limit) is Err,
    ensures
        spec_load(ps, limit) == spec_load(ps.take(j), limit),
    decreases ps.len() - j,
{
    if j < ps.len() {
        assert(ps.take(j + 1).drop_last() =~= ps.take(j));
        lemma_load_err_mono(ps, limit, j + 1);
    } else {
        assert(ps.take(j) =~= ps);
    }
}

impl HashMapLoader {
    /// Builds a loader from name-and-source pairs, parsing each
    /// source eagerly; a later pair replaces an earlier one of the
    /// same name. The first failing source decides the result, its
    /// parse error carrying that pair's name.
    pub fn from_pairs(pairs: Vec<(String, String)>) -> (r: Result<HashMapLoader, MoostacheError>)
        ensures
            ({
                let loaded = spec_load(pairs_view(pairs@), pairs_view(pairs@).len() as int);
                match r {
                    Ok(ld) => loaded == Ok::<_, ErrV>(ld.templates()),
                    Err(e) => loaded == Err::<Seq<(Seq<char>, TplV)>, _>(e@),
                }
            }),
    {
        let ghost ps = pairs_view(pairs@);
        let ghost limit = ps.len() as int;
        let mut loader = HashMapLoader { templates: Vec::new() };
        proof {
            assert(ps.take(0) =~= Seq::<(Seq<char>, Seq<char>)>::empty());
            assert(loader.templates() =~= Seq::<(Seq<char>, TplV)>::empty());
        }
        let mut i: usize = 0;
        while i < pairs.len()
            invariant
                i <= pairs@.len(),
                ps == pairs_view(pairs@),
                limit == ps.len() as int,
                spec_load(ps.take(i as int), limit) == Ok::<_, ErrV>(loader.templates()),
            decreases pairs@.len() - i,
        {
            proof {
                assert(ps.take(i + 1).drop_last() =~= ps.take(i as int));
                assert(ps.take(i + 1).last() == ps[i as int]);
            }
            let name = pairs[i].0.clone();
            match Template::parse(pairs[i].1.as_str()) {
                Err(e) => {
                    proof {
                        lemma_parse_err_carries(ps[i as int].1);
                        lemma_load_err_mono(ps, limit, i + 1);
                    }
                    return Err(e.set_name(name.as_str()));
                },
                Ok(t) => {
                    loader.insert(name, t);
                },
            }
            i = i + 1;
        }
        proof {
            assert(ps.take(i as int) =~= ps);
        }
        Ok(loader)
    }

    /// Builds a loader from the files found under a configured
    /// directory, handed over as pairs of template name and source.
    /// The cache size must be positive and the directory must have
    /// existed; every source is parsed eagerly, and loading more
    /// templates than the cache size admits is refused.
    pub fn from_directory_entries(
        config: &LoaderConfig<'_>,
        dir_exists: bool,
        entries: Vec<(String, String)>,
    ) -> (r: Result<HashMapLoader, MoostacheError>)
        ensures
            ({
                let loaded = spec_load(pairs_view(entries@), config.cache_size as int);
                if config.cache_size == 0 {
                    r is Err && r->Err_0@ == ErrV::ConfigErrorNonPositiveCacheSize
                } else if !dir_exists {
                    r is Err && r->Err_0@ == ErrV::ConfigErrorInvalidTemplatesDirectory(
                        spec_norm_dir(config.templates_directory@),
                    )
                } else {
                    match r {
                        Ok(ld) => loaded == Ok::<_, ErrV>(ld.templates()),
                        Err(e) => loaded == Err::<Seq<(Seq<char>, TplV)>, _>(e@),
                    }
                }
            }),
    {
        let validated = match config.validate() {
            Err(e) => {
                return Err(e);
            },
            Ok(v) => v,
        };
        let (dir, _ext, cache_size) = validated;
        if !dir_exists {
            return Err(MoostacheError::ConfigErrorInvalidTemplatesDirectory(dir));
        }
        let ghost ps = pairs_view(entries@);
        let ghost limit = cache_size as int;
        let mut loader = HashMapLoader { templates: Vec::new() };
        proof {
            assert(ps.take(0) =~= Seq::<(Seq<char>, Seq<char>)>::empty());
            assert(loader.templates() =~= Seq::<(Seq<char>, TplV)>::empty());
        }
        let mut i: usize = 0;
        while i < entries.len()
            invariant
                i <= entries@.len(),
                ps == pairs_view(entries@),
                limit == cache_size as int,
                cache_size == config.cache_size,
                cache_size > 0,
                dir_exists,
                i <= cache_size,
                spec_load(ps.take(i as int), limit) == Ok::<_, ErrV>(loader.templates()),
            decreases entries@.len() - i,
        {
            proof {
                assert(ps.take(i + 1).drop_last() =~= ps.take(i as int));
                assert(ps.take(i + 1).last() == ps[i as int]);
            }
            let name = entries[i].0.clone();
            match Template::parse(entries[i].1.as_str()) {
                Err(e) => {
                    proof {
                        lemma_parse_err_carries(ps[i as int].1);
                        lemma_load_err_mono(ps, limit, i + 1);
                    }
                    return Err(e.set_name(name.as_str()));
                },
                Ok(t) => {
                    loader.insert(name, t);
                },
            }
            if i + 1 > cache_size {
                proof {
                    lemma_load_err_mono(ps, limit, i + 1);
                }
                return Err(MoostacheError::ConfigErrorTooManyTemplates);
            }
            i = i + 1;
        }
        proof {
            assert(ps.take(i as int) =~= ps);
        }
        Ok(loader)
    }
}

} // verus!
