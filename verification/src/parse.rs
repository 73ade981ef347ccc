use crate::errors::{ErrV, MoostacheError};
use crate::template::{block_wf, frags_view, skips_view, Frag, Fragment, SectionSkip, SkipV, Template, TplV};
use vstd::prelude::*;

verus! {

/// ASCII whitespace, as permitted around a path inside a tag.
pub open spec fn spec_is_ws(c: char) -> bool {
    c == ' ' || c == '\t' || c == '\r' || c == '\n'
}

/// A character a variable name may hold: ASCII letters, digits, dash
/// and underscore.
pub open spec fn spec_is_name_char(c: char) -> bool {
    ('a' <= c && c <= 'z') || ('A' <= c && c <= 'Z') || ('0' <= c && c <= '9') || c == '-' || c
        == '_'
}

/// A character a partial's file name may hold: ASCII letters, digits,
/// and a set of punctuation that excludes braces, slash and
/// whitespace.
pub open spec fn spec_is_file_char(c: char) -> bool {
    ('a' <= c && c <= 'z') || ('A' <= c && c <= 'Z') || ('0' <= c && c <= '9') || c == '_' || c
        == '-' || c == '.' || c == ',' || c == '!' || c == '@' || c == '#' || c == '$' || c == '%'
        || c == '^' || c == '&' || c == '(' || c == ')' || c == '+' || c == '=' || c == '[' || c
        == ']' || c == '~'
}

/// Whether an opening `{{` stands at position `i`.
pub open spec fn spec_open_at(s: Seq<char>, i: int) -> bool {
    0 <= i && i + 2 <= s.len() && s[i] == '{' && s[i + 1] == '{'
}

/// Whether a closing `}}` stands at position `i`.
pub open spec fn spec_close_at(s: Seq<char>, i: int) -> bool {
    0 <= i && i + 2 <= s.len() && s[i] == '}' && s[i + 1] == '}'
}

/// Whether a closing `}}}` stands at position `i`.
pub open spec fn spec_close3_at(s: Seq<char>, i: int) -> bool {
    0 <= i && i + 3 <= s.len() && s[i] == '}' && s[i + 1] == '}' && s[i + 2] == '}'
}

/// The first position at or after `i` that does not hold whitespace,
/// or the end of the source.
pub open spec fn spec_skip_ws(s: Seq<char>, i: int) -> int
    decreases s.len() - i,
{
    if !(0 <= i && i < s.len()) {
        s.len() as int
    } else if spec_is_ws(s[i]) {
        spec_skip_ws(s, i + 1)
    } else {
        i
    }
}

/// The first position at or after `i` where `{{` stands, or the end
/// of the source if there is none.
pub open spec fn spec_find_open(s: Seq<char>, i: int) -> int
    decreases s.len() - i,
{
    if !(0 <= i && i + 2 <= s.len()) {
        s.len() as int
    } else if s[i] == '{' && s[i + 1] == '{' {
        i
    } else {
        spec_find_open(s, i + 1)
    }
}

/// The first position at or after `i` where `}}` stands, or the end
/// of the source if there is none.
pub open spec fn spec_find_close(s: Seq<char>, i: int) -> int
    decreases s.len() - i,
{
    if !(0 <= i && i + 2 <= s.len()) {
        s.len() as int
    } else if s[i] == '}' && s[i + 1] == '}' {
        i
    } else {
        spec_find_close(s, i + 1)
    }
}

/// The end of the run of name characters that starts at `i`.
pub open spec fn spec_name_run(s: Seq<char>, i: int) -> int
    decreases s.len() - i,
{
    if 0 <= i && i < s.len() && spec_is_name_char(s[i]) {
        spec_name_run(s, i + 1)
    } else {
        i
    }
}

/// The end of the run of file-name characters that starts at `i`.
pub open spec fn spec_file_run(s: Seq<char>, i: int) -> int
    decreases s.len() - i,
{
    if 0 <= i && i < s.len() && spec_is_file_char(s[i]) {
        spec_file_run(s, i + 1)
    } else {
        i
    }
}

/// Starting just after a name, the end of the longest continuation of
/// the form `('.' name)*`: a dot is taken only when a name character
/// follows it.
pub open spec fn spec_path_more(s: Seq<char>, i: int) -> int
    decreases s.len() - i,
{
    if 0 <= i && i + 1 < s.len() && s[i] == '.' && spec_is_name_char(s[i + 1]) {
        let e = spec_name_run(s, i + 1);
        if i + 1 < e && e <= s.len() {
            spec_path_more(s, e)
        } else {
            i
        }
    } else {
        i
    }
}

/// Starting just after a file name, the end of the longest
/// continuation of the form `('/' file_name)*`.
pub open spec fn spec_file_more(s: Seq<char>, i: int) -> int
    decreases s.len() - i,
{
    if 0 <= i && i + 1 < s.len() && s[i] == '/' && spec_is_file_char(s[i + 1]) {
        let e = spec_file_run(s, i + 1);
        if i + 1 < e && e <= s.len() {
            spec_file_more(s, e)
        } else {
            i
        }
    } else {
        i
    }
}

/// A variable path inside a tag, starting at `i`: whitespace, then
/// either a single dot or dotted names, then whitespace. `None` when
/// no path stands there; otherwise the path's bounds `(lo, hi)` and
/// the position `j` after the trailing whitespace, where the closing
/// braces must stand.
pub open spec fn spec_var_path(s: Seq<char>, i: int) -> Option<(int, int, int)> {
    let a = spec_skip_ws(s, i);
    if a < s.len() && s[a] == '.' {
        Some((a, a + 1, spec_skip_ws(s, a + 1)))
    } else {
        let e = spec_name_run(s, a);
        if e == a {
            None
        } else {
            let e2 = spec_path_more(s, e);
            Some((a, e2, spec_skip_ws(s, e2)))
        }
    }
}

/// A partial's file path inside a tag, starting at `i`: whitespace,
/// then slash-separated file names, then whitespace.
pub open spec fn spec_file_path(s: Seq<char>, i: int) -> Option<(int, int, int)> {
    let a = spec_skip_ws(s, i);
    let e = spec_file_run(s, a);
    if e == a {
        None
    } else {
        let e2 = spec_file_more(s, e);
        Some((a, e2, spec_skip_ws(s, e2)))
    }
}

fn is_ws_char(c: char) -> (r: bool)
    ensures
        r == spec_is_ws(c),
{
    c == ' ' || c == '\t' || c == '\r' || c == '\n'
}

fn is_name_char(c: char) -> (r: bool)
    ensures
        r == spec_is_name_char(c),
{
    (c >= 'a' && c <= 'z') || (c >= 'A' && c <= 'Z') || (c >= '0' && c <= '9') || c == '-' || c
        == '_'
}

fn is_file_char(c: char) -> (r: bool)
    ensures
        r == spec_is_file_char(c),
{
    (c >= 'a' && c <= 'z') || (c >= 'A' && c <= 'Z') || (c >= '0' && c <= '9') || c == '_' || c
        == '-' || c == '.' || c == ',' || c == '!' || c == '@' || c == '#' || c == '$' || c == '%'
        || c == '^' || c == '&' || c == '(' || c == ')' || c == '+' || c == '=' || c == '[' || c
        == ']' || c == '~'
}

fn skip_ws(s: &str, i: usize) -> (j: usize)
    requires
        i <= s@.len(),
    ensures
        j == spec_skip_ws(s@, i as int),
        i <= j <= s@.len(),
{
    let len = s.unicode_len();
    let mut j: usize = i;
    loop
        invariant
            i <= j <= len,
            len == s@.len(),
            spec_skip_ws(s@, i as int) == spec_skip_ws(s@, j as int),
        decreases len - j,
    {
        if j == len {
            return j;
        }
        let c = s.get_char(j);
        if !is_ws_char(c) {
            return j;
        }
        j = j + 1;
    }
}

fn find_open(s: &str, i: usize) -> (k: usize)
    requires
        i <= s@.len(),
    ensures
        k == spec_find_open(s@, i as int),
        i <= k <= s@.len(),
        k < s@.len() ==> spec_open_at(s@, k as int),
        i < s@.len() && !spec_open_at(s@, i as int) ==> i < k,
{
    let len = s.unicode_len();
    let mut j: usize = i;
    loop
        invariant
            i <= j <= len,
            len == s@.len(),
            spec_find_open(s@, i as int) == spec_find_open(s@, j as int),
            forall|m: int| i <= m < j ==> !spec_open_at(s@, m),
        decreases len - j,
    {
        if len - j < 2 {
            return len;
        }
        if s.get_char(j) == '{' && s.get_char(j + 1) == '{' {
            return j;
        }
        j = j + 1;
    }
}

fn find_close(s: &str, i: usize) -> (k: usize)
    requires
        i <= s@.len(),
    ensures
        k == spec_find_close(s@, i as int),
        i <= k <= s@.len(),
        k < s@.len() ==> spec_close_at(s@, k as int),
{
    let len = s.unicode_len();
    let mut j: usize = i;
    loop
        invariant
            i <= j <= len,
            len == s@.len(),
            spec_find_close(s@, i as int) == spec_find_close(s@, j as int),
        decreases len - j,
    {
        if len - j < 2 {
            return len;
        }
        if s.get_char(j) == '}' && s.get_char(j + 1) == '}' {
            return j;
        }
        j = j + 1;
    }
}

fn name_run(s: &str, i: usize) -> (e: usize)
    requires
        i <= s@.len(),
    ensures
        e == spec_name_run(s@, i as int),
        i <= e <= s@.len(),
{
    let len = s.unicode_len();
    let mut j: usize = i;
    loop
        invariant
            i <= j <= len,
            len == s@.len(),
            spec_name_run(s@, i as int) == spec_name_run(s@, j as int),
        decreases len - j,
    {
        if j == len {
            return j;
        }
        if !is_name_char(s.get_char(j)) {
            return j;
        }
        j = j + 1;
    }
}

fn file_run(s: &str, i: usize) -> (e: usize)
    requires
        i <= s@.len(),
    ensures
        e == spec_file_run(s@, i as int),
        i <= e <= s@.len(),
{
    let len = s.unicode_len();
    let mut j: usize = i;
    loop
        invariant
            i <= j <= len,
            len == s@.len(),
            spec_file_run(s@, i as int) == spec_file_run(s@, j as int),
        decreases len - j,
    {
        if j == len {
            return j;
        }
        if !is_file_char(s.get_char(j)) {
            return j;
        }
        j = j + 1;
    }
}

fn path_more(s: &str, i: usize) -> (e: usize)
    requires
        i <= s@.len(),
    ensures
        e == spec_path_more(s@, i as int),
        i <= e <= s@.len(),
{
    let len = s.unicode_len();
    let mut j: usize = i;
    loop
        invariant
            i <= j <= len,
            len == s@.len(),
            spec_path_more(s@, i as int) == spec_path_more(s@, j as int),
        decreases len - j,
    {
        if len - j < 2 {
            return j;
        }
        if !(s.get_char(j) == '.' && is_name_char(s.get_char(j + 1))) {
            return j;
        }
        let e = name_run(s, j + 2);
        assert(e == spec_name_run(s@, j + 1));
        j = e;
    }
}

fn file_more(s: &str, i: usize) -> (e: usize)
    requires
        i <= s@.len(),
    ensures
        e == spec_file_more(s@, i as int),
        i <= e <= s@.len(),
{
    let len = s.unicode_len();
    let mut j: usize = i;
    loop
        invariant
            i <= j <= len,
            len == s@.len(),
            spec_file_more(s@, i as int) == spec_file_more(s@, j as int),
        decreases len - j,
    {
        if len - j < 2 {
            return j;
        }
        if !(s.get_char(j) == '/' && is_file_char(s.get_char(j + 1))) {
            return j;
        }
        let e = file_run(s, j + 2);
        assert(e == spec_file_run(s@, j + 1));
        j = e;
    }
}

fn var_path(s: &str, i: usize) -> (r: Option<(usize, usize, usize)>)
    requires
        i <= s@.len(),
    ensures
        match r {
            Some((lo, hi, j)) => {
                &&& spec_var_path(s@, i as int) == Some((lo as int, hi as int, j as int))
                &&& i <= lo < hi <= j <= s@.len()
            },
            None => spec_var_path(s@, i as int) is None,
        },
{
    let len = s.unicode_len();
    let a = skip_ws(s, i);
    if a < len && s.get_char(a) == '.' {
        let j = skip_ws(s, a + 1);
        Some((a, a + 1, j))
    } else {
        let e = name_run(s, a);
        if e == a {
            None
        } else {
            let e2 = path_more(s, e);
            let j = skip_ws(s, e2);
            Some((a, e2, j))
        }
    }
}

fn file_path(s: &str, i: usize) -> (r: Option<(usize, usize, usize)>)
    requires
        i <= s@.len(),
    ensures
        match r {
            Some((lo, hi, j)) => {
                &&& spec_file_path(s@, i as int) == Some((lo as int, hi as int, j as int))
                &&& i <= lo < hi <= j <= s@.len()
            },
            None => spec_file_path(s@, i as int) is None,
        },
{
    let a = skip_ws(s, i);
    let e = file_run(s, a);
    if e == a {
        None
    } else {
        let e2 = file_more(s, e);
        let j = skip_ws(s, e2);
        Some((a, e2, j))
    }
}

fn close_at(s: &str, j: usize) -> (r: bool)
    requires
        j <= s@.len(),
    ensures
        r == spec_close_at(s@, j as int),
{
    let len = s.unicode_len();
    len - j >= 2 && s.get_char(j) == '}' && s.get_char(j + 1) == '}'
}

fn close3_at(s: &str, j: usize) -> (r: bool)
    requires
        j <= s@.len(),
    ensures
        r == spec_close3_at(s@, j as int),
{
    let len = s.unicode_len();
    len - j >= 3 && s.get_char(j) == '}' && s.get_char(j + 1) == '}' && s.get_char(j + 2) == '}'
}

/// The parse of one block, in the mathematical model: the fragments
/// and skip entries it yields, the position where it stopped, and,
/// when it stopped at a section end tag `{{/ p }}`, that tag's path.
pub struct BlockV {
    pub frags: Seq<Frag>,
    pub skips: Seq<SkipV>,
    pub end: int,
    pub close: Option<Seq<char>>,
}

/// A block result with one more fragment in front.
pub open spec fn spec_prepend(f: Frag, r: BlockV) -> BlockV {
    BlockV { frags: seq![f] + r.frags, skips: r.skips, end: r.end, close: r.close }
}

/// The parse of the block that starts at position `i`: fragments are
/// taken one after the other, a section start recurses into its body
/// and requires the matching end tag, and a section end tag or the
/// end of the source ends the block. The alternation commits on each
/// tag's opening sigil: after `{{#`, `{{^`, `{{{`, `{{!`, `{{>`,
/// `{{/` or `{{`, a malformed body is a hard error naming that tag.
///
/// The two `i < ... <= s.len()` tests guard the recursion; no parse
/// reaches their failing side, as the parser's contract shows.
pub open spec fn spec_parse_block(s: Seq<char>, i: int) -> Result<BlockV, ErrV>
    decreases s.len() - i,
{
    let len = s.len() as int;
    if !(0 <= i && i < len) {
        Ok(BlockV { frags: Seq::empty(), skips: Seq::empty(), end: i, close: None })
    } else if spec_open_at(s, i) {
        if i + 2 < len && s[i + 2] == '/' {
            match spec_var_path(s, i + 3) {
                None => Err(ErrV::ParseErrorInvalidSectionEndTag(Seq::empty())),
                Some((lo, hi, j)) => if spec_close_at(s, j) {
                    Ok(
                        BlockV {
                            frags: Seq::empty(),
                            skips: Seq::empty(),
                            end: j + 2,
                            close: Some(s.subrange(lo, hi)),
                        },
                    )
                } else {
                    Err(ErrV::ParseErrorInvalidSectionEndTag(Seq::empty()))
                },
            }
        } else if i + 2 < len && (s[i + 2] == '#' || s[i + 2] == '^') {
            let inverted = s[i + 2] == '^';
            let start_err = if inverted {
                ErrV::ParseErrorInvalidInvertedSectionStartTag(Seq::empty())
            } else {
                ErrV::ParseErrorInvalidSectionStartTag(Seq::empty())
            };
            match spec_var_path(s, i + 3) {
                None => Err(start_err),
                Some((lo, hi, j)) => if !spec_close_at(s, j) {
                    Err(start_err)
                } else if !(i < j + 2 && j + 2 <= len) {
                    Err(ErrV::ParseErrorGeneric(Seq::empty()))
                } else {
                    match spec_parse_block(s, j + 2) {
                        Err(e) => Err(e),
                        Ok(body) => match body.close {
                            None => Err(ErrV::ParseErrorUnclosedSectionTags(Seq::empty())),
                            Some(cpath) => if cpath != s.subrange(lo, hi) {
                                Err(ErrV::ParseErrorMismatchedSectionEndTag(Seq::empty()))
                            } else if body.frags.len() > 65535 || body.skips.len() > 65535 {
                                Err(ErrV::ParseErrorGeneric(Seq::empty()))
                            } else if !(i < body.end && body.end <= len) {
                                Err(ErrV::ParseErrorGeneric(Seq::empty()))
                            } else {
                                match spec_parse_block(s, body.end) {
                                    Err(e) => Err(e),
                                    Ok(rest) => {
                                        let head = if inverted {
                                            Frag::InvertedSection(s.subrange(lo, hi))
                                        } else {
                                            Frag::Section(s.subrange(lo, hi))
                                        };
                                        let skip = SkipV {
                                            sections: body.skips.len() as int,
                                            fragments: body.frags.len() as int,
                                        };
                                        Ok(
                                            BlockV {
                                                frags: seq![head] + body.frags + rest.frags,
                                                skips: seq![skip] + body.skips + rest.skips,
                                                end: rest.end,
                                                close: rest.close,
                                            },
                                        )
                                    },
                                }
                            },
                        },
                    }
                },
            }
        } else if i + 2 < len && s[i + 2] == '{' {
            match spec_var_path(s, i + 3) {
                None => Err(ErrV::ParseErrorInvalidUnescapedVariableTag(Seq::empty())),
                Some((lo, hi, j)) => if !spec_close3_at(s, j) {
                    Err(ErrV::ParseErrorInvalidUnescapedVariableTag(Seq::empty()))
                } else if !(i < j + 3 && j + 3 <= len) {
                    Err(ErrV::ParseErrorGeneric(Seq::empty()))
                } else {
                    match spec_parse_block(s, j + 3) {
                        Err(e) => Err(e),
                        Ok(rest) => Ok(
                            spec_prepend(Frag::UnescapedVariable(s.subrange(lo, hi)), rest),
                        ),
                    }
                },
            }
        } else if i + 2 < len && s[i + 2] == '!' {
            let k = spec_find_close(s, i + 3);
            if k >= len {
                Err(ErrV::ParseErrorInvalidCommentTag(Seq::empty()))
            } else if !(i < k + 2 && k + 2 <= len) {
                Err(ErrV::ParseErrorGeneric(Seq::empty()))
            } else {
                spec_parse_block(s, k + 2)
            }
        } else if i + 2 < len && s[i + 2] == '>' {
            match spec_file_path(s, i + 3) {
                None => Err(ErrV::ParseErrorInvalidPartialTag(Seq::empty())),
                Some((lo, hi, j)) => if !spec_close_at(s, j) {
                    Err(ErrV::ParseErrorInvalidPartialTag(Seq::empty()))
                } else if !(i < j + 2 && j + 2 <= len) {
                    Err(ErrV::ParseErrorGeneric(Seq::empty()))
                } else {
                    match spec_parse_block(s, j + 2) {
                        Err(e) => Err(e),
                        Ok(rest) => Ok(spec_prepend(Frag::Partial(s.subrange(lo, hi)), rest)),
                    }
                },
            }
        } else {
            match spec_var_path(s, i + 2) {
                None => Err(ErrV::ParseErrorInvalidEscapedVariableTag(Seq::empty())),
                Some((lo, hi, j)) => if !spec_close_at(s, j) {
                    Err(ErrV::ParseErrorInvalidEscapedVariableTag(Seq::empty()))
                } else if !(i < j + 2 && j + 2 <= len) {
                    Err(ErrV::ParseErrorGeneric(Seq::empty()))
                } else {
                    match spec_parse_block(s, j + 2) {
                        Err(e) => Err(e),
                        Ok(rest) => Ok(
                            spec_prepend(Frag::EscapedVariable(s.subrange(lo, hi)), rest),
                        ),
                    }
                },
            }
        }
    } else {
        let k = spec_find_open(s, i);
        if !(i < k && k <= len) {
            Err(ErrV::ParseErrorGeneric(Seq::empty()))
        } else {
            match spec_parse_block(s, k) {
                Err(e) => Err(e),
                Ok(rest) => Ok(spec_prepend(Frag::Literal(s.subrange(i, k)), rest)),
            }
        }
    }
}

/// The parse of a whole source: empty input is refused, and a block
/// that stopped at a section end tag means that tag had no matching
/// start.
pub open spec fn spec_parse(s: Seq<char>) -> Result<crate::template::TplV, ErrV> {
    if s.len() == 0 {
        Err(ErrV::ParseErrorNoContent(Seq::empty()))
    } else {
        match spec_parse_block(s, 0) {
            Err(e) => Err(e),
            Ok(b) => if b.close is Some {
                Err(ErrV::ParseErrorMismatchedSectionEndTag(Seq::empty()))
            } else {
                Ok(crate::template::TplV { frags: b.frags, skips: b.skips })
            },
        }
    }
}

/// The parse of one block, executably: fragments, skip table, stop
/// position, and the path of the section end tag that stopped it, if
/// one did.
pub(crate) struct Block {
    pub(crate) frags: Vec<Fragment>,
    pub(crate) skips: Vec<SectionSkip>,
    pub(crate) end: usize,
    pub(crate) close: Option<String>,
}

/// Whether an executable block result means the model block result.
pub(crate) open spec fn block_matches(b: Block, bv: BlockV) -> bool {
    &&& frags_view(b.frags@) == bv.frags
    &&& skips_view(b.skips@) == bv.skips
    &&& b.end as int == bv.end
    &&& match (b.close, bv.close) {
        (Option::None, Option::None) => true,
        (Option::Some(c), Option::Some(cv)) => c@ == cv,
        _ => false,
    }
}

impl Block {
    fn empty_at(end: usize) -> (r: Block)
        ensures
            r.frags@ =~= Seq::<Fragment>::empty(),
            r.skips@ =~= Seq::<SectionSkip>::empty(),
            r.end == end,
            r.close is None,
            frags_view(r.frags@) =~= Seq::<Frag>::empty(),
            skips_view(r.skips@) =~= Seq::<SkipV>::empty(),
    {
        Block { frags: Vec::new(), skips: Vec::new(), end, close: None }
    }
}

/// Parses the block that starts at position `i`, mirroring
/// `spec_parse_block` exactly.
#[verifier::loop_isolation(false)]
pub(crate) fn parse_block(s: &str, i: usize) -> (r: Result<Block, MoostacheError>)
    requires
        i <= s@.len(),
    ensures
        ({
            let sp = spec_parse_block(s@, i as int);
            match r {
                Ok(b) => sp is Ok && block_matches(b, sp->Ok_0) && i <= b.end <= s@.len(),
                Err(e) => sp is Err && e@ == sp->Err_0,
            }
        }),
    decreases s@.len() - i,
{
    let len = s.unicode_len();
    if i >= len {
        return Ok(Block::empty_at(i));
    }
    let open_here = s.get_char(i) == '{' && len - i >= 2 && s.get_char(i + 1) == '{';
    if !open_here {
        let k = find_open(s, i);
        assert(i < k);
        let text = s.substring_char(i, k).to_owned();
        let rest = match parse_block(s, k) {
            Err(e) => {
                return Err(e);
            },
            Ok(rest) => rest,
        };
        let mut rest = rest;
        let mut frags: Vec<Fragment> = Vec::new();
        frags.push(Fragment::Literal(text));
        frags.append(&mut rest.frags);
        proof {
            let sp = spec_parse_block(s@, i as int);
            let rv = spec_parse_block(s@, k as int)->Ok_0;
            assert(frags_view(frags@) =~= seq![Frag::Literal(s@.subrange(i as int, k as int))]
                + rv.frags);
        }
        return Ok(Block { frags, skips: rest.skips, end: rest.end, close: rest.close });
    }
    // a tag opens here; commit on its sigil
    let c3 = if i + 2 < len {
        s.get_char(i + 2)
    } else {
        '\u{0}'
    };
    let has3 = i + 2 < len;
    if has3 && c3 == '/' {
        match var_path(s, i + 3) {
            None => Err(MoostacheError::ParseErrorInvalidSectionEndTag(String::new())),
            Some((lo, hi, j)) => {
                if close_at(s, j) {
                    let path = s.substring_char(lo, hi).to_owned();
                    let mut b = Block::empty_at(j + 2);
                    b.close = Some(path);
                    Ok(b)
                } else {
                    Err(MoostacheError::ParseErrorInvalidSectionEndTag(String::new()))
                }
            },
        }
    } else if has3 && (c3 == '#' || c3 == '^') {
        let inverted = c3 == '^';
        match var_path(s, i + 3) {
            None => {
                if inverted {
                    Err(MoostacheError::ParseErrorInvalidInvertedSectionStartTag(String::new()))
                } else {
                    Err(MoostacheError::ParseErrorInvalidSectionStartTag(String::new()))
                }
            },
            Some((lo, hi, j)) => {
                if !close_at(s, j) {
                    if inverted {
                        return Err(
                            MoostacheError::ParseErrorInvalidInvertedSectionStartTag(String::new()),
                        );
                    } else {
                        return Err(MoostacheError::ParseErrorInvalidSectionStartTag(String::new()));
                    }
                }
                let mut body = match parse_block(s, j + 2) {
                    Err(e) => {
                        return Err(e);
                    },
                    Ok(body) => body,
                };
                let cpath = match body.close {
                    None => {
                        return Err(MoostacheError::ParseErrorUnclosedSectionTags(String::new()));
                    },
                    Some(cpath) => cpath,
                };
                let path = s.substring_char(lo, hi).to_owned();
                if !(cpath == path) {
                    return Err(MoostacheError::ParseErrorMismatchedSectionEndTag(String::new()));
                }
                if body.frags.len() > 65535 || body.skips.len() > 65535 {
                    return Err(MoostacheError::ParseErrorGeneric(String::new()));
                }
                let mut rest = match parse_block(s, body.end) {
                    Err(e) => {
                        return Err(e);
                    },
                    Ok(rest) => rest,
                };
                let skip = SectionSkip {
                    nested_sections: body.skips.len() as u16,
                    nested_fragments: body.frags.len() as u16,
                };
                let head = if inverted {
                    Fragment::InvertedSection(path)
                } else {
                    Fragment::Section(path)
                };
                let mut frags: Vec<Fragment> = Vec::new();
                frags.push(head);
                frags.append(&mut body.frags);
                frags.append(&mut rest.frags);
                let mut skips: Vec<SectionSkip> = Vec::new();
                skips.push(skip);
                skips.append(&mut body.skips);
                skips.append(&mut rest.skips);
                proof {
                    let bv = spec_parse_block(s@, j + 2 as int)->Ok_0;
                    let rv = spec_parse_block(s@, bv.end)->Ok_0;
                    let headv = if inverted {
                        Frag::InvertedSection(s@.subrange(lo as int, hi as int))
                    } else {
                        Frag::Section(s@.subrange(lo as int, hi as int))
                    };
                    let skipv = SkipV {
                        sections: bv.skips.len() as int,
                        fragments: bv.frags.len() as int,
                    };
                    assert(frags_view(frags@) =~= seq![headv] + bv.frags + rv.frags);
                    assert(skips_view(skips@) =~= seq![skipv] + bv.skips + rv.skips);
                }
                Ok(Block { frags, skips, end: rest.end, close: rest.close })
            },
        }
    } else if has3 && c3 == '{' {
        match var_path(s, i + 3) {
            None => Err(MoostacheError::ParseErrorInvalidUnescapedVariableTag(String::new())),
            Some((lo, hi, j)) => {
                if !close3_at(s, j) {
                    return Err(
                        MoostacheError::ParseErrorInvalidUnescapedVariableTag(String::new()),
                    );
                }
                let path = s.substring_char(lo, hi).to_owned();
                let mut rest = match parse_block(s, j + 3) {
                    Err(e) => {
                        return Err(e);
                    },
                    Ok(rest) => rest,
                };
                let mut frags: Vec<Fragment> = Vec::new();
                frags.push(Fragment::UnescapedVariable(path));
                frags.append(&mut rest.frags);
                proof {
                    let rv = spec_parse_block(s@, j + 3 as int)->Ok_0;
                    assert(frags_view(frags@) =~= seq![Frag::UnescapedVariable(
                        s@.subrange(lo as int, hi as int),
                    )] + rv.frags);
                }
                Ok(Block { frags, skips: rest.skips, end: rest.end, close: rest.close })
            },
        }
    } else if has3 && c3 == '!' {
        let k = find_close(s, i + 3);
        if k >= len {
            Err(MoostacheError::ParseErrorInvalidCommentTag(String::new()))
        } else {
            parse_block(s, k + 2)
        }
    } else if has3 && c3 == '>' {
        match file_path(s, i + 3) {
            None => Err(MoostacheError::ParseErrorInvalidPartialTag(String::new())),
            Some((lo, hi, j)) => {
                if !close_at(s, j) {
                    return Err(MoostacheError::ParseErrorInvalidPartialTag(String::new()));
                }
                let path = s.substring_char(lo, hi).to_owned();
                let mut rest = match parse_block(s, j + 2) {
                    Err(e) => {
                        return Err(e);
                    },
                    Ok(rest) => rest,
                };
                let mut frags: Vec<Fragment> = Vec::new();
                frags.push(Fragment::Partial(path));
                frags.append(&mut rest.frags);
                proof {
                    let rv = spec_parse_block(s@, j + 2 as int)->Ok_0;
                    assert(frags_view(frags@) =~= seq![Frag::Partial(
                        s@.subrange(lo as int, hi as int),
                    )] + rv.frags);
                }
                Ok(Block { frags, skips: rest.skips, end: rest.end, close: rest.close })
            },
        }
    } else {
        match var_path(s, i + 2) {
            None => Err(MoostacheError::ParseErrorInvalidEscapedVariableTag(String::new())),
            Some((lo, hi, j)) => {
                if !close_at(s, j) {
                    return Err(MoostacheError::ParseErrorInvalidEscapedVariableTag(String::new()));
                }
                let path = s.substring_char(lo, hi).to_owned();
                let mut rest = match parse_block(s, j + 2) {
                    Err(e) => {
                        return Err(e);
                    },
                    Ok(rest) => rest,
                };
                let mut frags: Vec<Fragment> = Vec::new();
                frags.push(Fragment::EscapedVariable(path));
                frags.append(&mut rest.frags);
                proof {
                    let rv = spec_parse_block(s@, j + 2 as int)->Ok_0;
                    assert(frags_view(frags@) =~= seq![Frag::EscapedVariable(
                        s@.subrange(lo as int, hi as int),
                    )] + rv.frags);
                }
                Ok(Block { frags, skips: rest.skips, end: rest.end, close: rest.close })
            },
        }
    }
}

/// Every block the parser accepts is structurally consistent: its
/// fragment list and skip table satisfy `block_wf`.
pub proof fn lemma_parse_block_wf(s: Seq<char>, i: int)
    requires
        0 <= i <= s.len(),
        spec_parse_block(s, i) is Ok,
    ensures
        block_wf(spec_parse_block(s, i)->Ok_0.frags, spec_parse_block(s, i)->Ok_0.skips),
    decreases s.len() - i,
{
    let len = s.len() as int;
    let b = spec_parse_block(s, i)->Ok_0;
    if !(0 <= i && i < len) {
    } else if spec_open_at(s, i) {
        if i + 2 < len && s[i + 2] == '/' {
        } else if i + 2 < len && (s[i + 2] == '#' || s[i + 2] == '^') {
            match spec_var_path(s, i + 3) {
                None => {
                },
                Some((lo, hi, j)) => {
                    let body = spec_parse_block(s, j + 2)->Ok_0;
                    lemma_parse_block_wf(s, j + 2);
                    let rest = spec_parse_block(s, body.end)->Ok_0;
                    lemma_parse_block_wf(s, body.end);
                    assert(b.frags.subrange(1, 1 + body.frags.len() as int) =~= body.frags);
                    assert(b.frags.subrange(1 + body.frags.len() as int, b.frags.len() as int)
                        =~= rest.frags);
                    assert(b.skips.subrange(1, 1 + body.skips.len() as int) =~= body.skips);
                    assert(b.skips.subrange(1 + body.skips.len() as int, b.skips.len() as int)
                        =~= rest.skips);
                },
            }
        } else if i + 2 < len && s[i + 2] == '{' {
            match spec_var_path(s, i + 3) {
                None => {
                },
                Some((lo, hi, j)) => {
                    if spec_close3_at(s, j) && i < j + 3 && j + 3 <= len {
                        let rest = spec_parse_block(s, j + 3)->Ok_0;
                        lemma_parse_block_wf(s, j + 3);
                        assert(b.frags.subrange(1, b.frags.len() as int) =~= rest.frags);
                    }
                },
            }
        } else if i + 2 < len && s[i + 2] == '!' {
            let k = spec_find_close(s, i + 3);
            if k < len && i < k + 2 && k + 2 <= len {
                lemma_parse_block_wf(s, k + 2);
            }
        } else if i + 2 < len && s[i + 2] == '>' {
            match spec_file_path(s, i + 3) {
                None => {
                },
                Some((lo, hi, j)) => {
                    if spec_close_at(s, j) && i < j + 2 && j + 2 <= len {
                        let rest = spec_parse_block(s, j + 2)->Ok_0;
                        lemma_parse_block_wf(s, j + 2);
                        assert(b.frags.subrange(1, b.frags.len() as int) =~= rest.frags);
                    }
                },
            }
        } else {
            match spec_var_path(s, i + 2) {
                None => {
                },
                Some((lo, hi, j)) => {
                    if spec_close_at(s, j) && i < j + 2 && j + 2 <= len {
                        let rest = spec_parse_block(s, j + 2)->Ok_0;
                        lemma_parse_block_wf(s, j + 2);
                        assert(b.frags.subrange(1, b.frags.len() as int) =~= rest.frags);
                    }
                },
            }
        }
    } else {
        let k = spec_find_open(s, i);
        if i < k && k <= len {
            let rest = spec_parse_block(s, k)->Ok_0;
            lemma_parse_block_wf(s, k);
            assert(b.frags.subrange(1, b.frags.len() as int) =~= rest.frags);
        }
    }
}

impl Template {
    /// Parses a source text into a compiled template.
    ///
    /// On success the template is exactly the parse that
    /// `spec_parse` describes: the fragment list in source order and
    /// one skip table entry per section. Each error comes exactly
    /// when `spec_parse` says it does, with an empty template name.
    pub fn parse(source: &str) -> (r: Result<Template, MoostacheError>)
        ensures
            match r {
                Ok(t) => spec_parse(source@) is Ok && t@ == spec_parse(source@)->Ok_0 && t.wf(),
                Err(e) => spec_parse(source@) is Err && e@ == spec_parse(source@)->Err_0,
            },
    {
        if source.is_empty() {
            return Err(MoostacheError::ParseErrorNoContent(String::new()));
        }
        match parse_block(source, 0) {
            Err(e) => Err(e),
            Ok(b) => {
                match b.close {
                    Some(_) => Err(MoostacheError::ParseErrorMismatchedSectionEndTag(String::new())),
                    None => {
                        proof {
                            lemma_parse_block_wf(source@, 0);
                        }
                        Ok(Template { fragments: b.frags, skips: b.skips })
                    },
                }
            },
        }
    }
}

} // verus!
