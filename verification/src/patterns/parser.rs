//! The pattern text grammar and its parser.
//!
//! A pattern is an optional capture-group block — one or more `id"regex"`
//! definitions closed by `|` — followed by any number of elements: maximal
//! runs of literal text (stopped only by `/`), inserts `/NAME/`, and capture
//! references `/capN/`. Parsing consumes the whole input; what the parser
//! accepts and produces is pinned, element for element, by the spec-level
//! scanner in this module.

use vstd::prelude::*;

use crate::patterns::capture::{regex_is_valid, regex_error_message, CaptureRegex};
use crate::patterns::{
    defs_of, spec_groups_of, views_of, ActionOptions, PatternElem, PatternElemView, PatternInsert,
    RenamePattern,
};
use crate::text::{chars_of, digits_val, is_digit_char, string_from_chars, str_eq, sub_chars};

verus! {

/// Why a pattern text was rejected.
#[derive(Debug, PartialEq, Eq)]
pub enum PatternParseError {
    /// The text does not match the grammar.
    SyntaxError,
    /// A capture-group regex failed to compile; carries the compiler's message.
    RegexError(String),
    /// An insert `/NAME/` with an unrecognized name; carries the input from
    /// the opening slash on.
    NonexistentInsert(String),
    /// A `/capN/` reference whose id has no definition.
    NonexistentCapGroup(usize),
    /// Anything else, such as a group id too large to represent.
    Other(String),
}

/// End of the digit run starting at `i`: the first position at or after `i`
/// holding a non-digit, or the end of the input.
pub open spec fn digits_end(s: Seq<char>, i: int) -> int
    decreases s.len() - i,
{
    if i < 0 || i >= s.len() {
        i
    } else if !is_digit_char(s[i]) {
        i
    } else {
        digits_end(s, i + 1)
    }
}

pub proof fn lemma_digits_end(s: Seq<char>, i: int)
    requires
        0 <= i <= s.len(),
    ensures
        i <= digits_end(s, i) <= s.len(),
        forall|k: int| i <= k < digits_end(s, i) ==> is_digit_char(#[trigger] s[k]),
        digits_end(s, i) < s.len() ==> !is_digit_char(s[digits_end(s, i)]),
    decreases s.len() - i,
{
    if i < s.len() && is_digit_char(s[i]) {
        lemma_digits_end(s, i + 1);
    }
}

/// End of the run of non-`/` characters starting at `i`.
pub open spec fn lit_end(s: Seq<char>, i: int) -> int
    decreases s.len() - i,
{
    if i < 0 || i >= s.len() {
        i
    } else if s[i] == '/' {
        i
    } else {
        lit_end(s, i + 1)
    }
}

pub proof fn lemma_lit_end(s: Seq<char>, i: int)
    requires
        0 <= i <= s.len(),
    ensures
        i <= lit_end(s, i) <= s.len(),
        forall|k: int| i <= k < lit_end(s, i) ==> #[trigger] s[k] != '/',
        lit_end(s, i) < s.len() ==> s[lit_end(s, i)] == '/',
    decreases s.len() - i,
{
    if i < s.len() && s[i] != '/' {
        lemma_lit_end(s, i + 1);
    }
}

/// End of the run of non-`"` characters starting at `i`.
pub open spec fn quote_end(s: Seq<char>, i: int) -> int
    decreases s.len() - i,
{
    if i < 0 || i >= s.len() {
        i
    } else if s[i] == '"' {
        i
    } else {
        quote_end(s, i + 1)
    }
}

pub proof fn lemma_quote_end(s: Seq<char>, i: int)
    requires
        0 <= i <= s.len(),
    ensures
        i <= quote_end(s, i) <= s.len(),
        forall|k: int| i <= k < quote_end(s, i) ==> #[trigger] s[k] != '"',
        quote_end(s, i) < s.len() ==> s[quote_end(s, i)] == '"',
    decreases s.len() - i,
{
    if i < s.len() && s[i] != '"' {
        lemma_quote_end(s, i + 1);
    }
}

fn digit_here(s: &Vec<char>, j: usize) -> (r: bool)
    requires
        j < s.len(),
    ensures
        r == is_digit_char(s@[j as int]),
{
    let u = s[j] as u32;
    48 <= u && u <= 57
}

fn scan_digits(s: &Vec<char>, i: usize) -> (r: usize)
    requires
        i <= s.len(),
    ensures
        r == digits_end(s@, i as int),
        i <= r <= s.len(),
        forall|k: int| i <= k < r ==> is_digit_char(#[trigger] s@[k]),
        r < s.len() ==> !is_digit_char(s@[r as int]),
{
    let mut j: usize = i;
    while j < s.len() && digit_here(s, j)
        invariant
            i <= j <= s.len(),
            digits_end(s@, i as int) == digits_end(s@, j as int),
        decreases s.len() - j,
    {
        j = j + 1;
    }
    proof {
        lemma_digits_end(s@, i as int);
    }
    j
}

fn scan_not_slash(s: &Vec<char>, i: usize) -> (r: usize)
    requires
        i <= s.len(),
    ensures
        r == lit_end(s@, i as int),
        i <= r <= s.len(),
        r < s.len() ==> s@[r as int] == '/',
{
    let mut j: usize = i;
    while j < s.len() && s[j] != '/'
        invariant
            i <= j <= s.len(),
            lit_end(s@, i as int) == lit_end(s@, j as int),
        decreases s.len() - j,
    {
        j = j + 1;
    }
    proof {
        lemma_lit_end(s@, i as int);
    }
    j
}

fn scan_not_quote(s: &Vec<char>, i: usize) -> (r: usize)
    requires
        i <= s.len(),
    ensures
        r == quote_end(s@, i as int),
        i <= r <= s.len(),
        r < s.len() ==> s@[r as int] == '"',
{
    let mut j: usize = i;
    while j < s.len() && s[j] != '"'
        invariant
            i <= j <= s.len(),
            quote_end(s@, i as int) == quote_end(s@, j as int),
        decreases s.len() - j,
    {
        j = j + 1;
    }
    proof {
        lemma_quote_end(s@, i as int);
    }
    j
}

proof fn lemma_digits_val_step(s: Seq<char>, a: int, k: int)
    requires
        0 <= a <= k < s.len(),
    ensures
        digits_val(s.subrange(a, k + 1)) == digits_val(s.subrange(a, k)) * 10 + crate::text::digit_val(
            s[k],
        ),
{
    assert(s.subrange(a, k + 1).drop_last() =~= s.subrange(a, k));
    assert(s.subrange(a, k + 1).last() == s[k]);
}

proof fn lemma_digits_val_extend(s: Seq<char>, a: int, k: int, b: int)
    requires
        0 <= a <= k <= b <= s.len(),
    ensures
        digits_val(s.subrange(a, k)) <= digits_val(s.subrange(a, b)),
    decreases b - k,
{
    if k < b {
        lemma_digits_val_step(s, a, k);
        assert(digits_val(s.subrange(a, k)) * 10 == digits_val(s.subrange(a, k)) + 9 * digits_val(
            s.subrange(a, k),
        ));
        lemma_digits_val_extend(s, a, k + 1, b);
    }
}

/// Outcome of scanning the capture-group block at the head of the input.
pub enum DefsScan {
    /// No well-formed block: parsing restarts at the beginning as elements.
    NoBlock,
    /// A block of one or more definitions closed by `|`: the position after
    /// the `|` and the definitions in source order.
    Block { end: int, defs: Seq<(usize, Seq<char>)> },
    /// A definition's regex failed to compile (terminal).
    BadRegex(Seq<char>),
    /// A definition's id does not fit `usize` (terminal).
    IdOverflow,
}

/// Scan capture-group definitions `id"regex"` from `i`, accumulating into
/// `acc`, until a closing `|`. A structural mismatch abandons the whole block;
/// an invalid regex or an oversized id is terminal.
pub open spec fn spec_scan_defs(s: Seq<char>, i: int, acc: Seq<(usize, Seq<char>)>) -> DefsScan
    recommends
        0 <= i <= s.len(),
    decreases s.len() - i,
    when 0 <= i <= s.len()
    via spec_scan_defs_decreases
{
    if acc.len() > 0 && i < s.len() && s[i] == '|' {
        DefsScan::Block { end: i + 1, defs: acc }
    } else {
        let d = digits_end(s, i);
        if d == i {
            DefsScan::NoBlock
        } else if digits_val(s.subrange(i, d)) > usize::MAX {
            DefsScan::IdOverflow
        } else if d >= s.len() || s[d] != '"' {
            DefsScan::NoBlock
        } else {
            let q = quote_end(s, d + 1);
            if q >= s.len() {
                DefsScan::NoBlock
            } else {
                let src = s.subrange(d + 1, q);
                if !regex_is_valid(src) {
                    DefsScan::BadRegex(src)
                } else {
                    spec_scan_defs(
                        s,
                        q + 1,
                        acc.push((digits_val(s.subrange(i, d)) as usize, src)),
                    )
                }
            }
        }
    }
}

#[via_fn]
proof fn spec_scan_defs_decreases(s: Seq<char>, i: int, acc: Seq<(usize, Seq<char>)>) {
    lemma_digits_end(s, i);
    let d = digits_end(s, i);
    if 0 <= d + 1 <= s.len() {
        lemma_quote_end(s, d + 1);
    }
}

/// Outcome of scanning the element list.
pub enum ElemsScan {
    /// The whole rest of the input parsed as elements.
    Done(Seq<PatternElemView>),
    /// The text does not match the grammar.
    Syntax,
    /// An insert with an unrecognized name; carries the input from its
    /// opening slash on.
    BadInsert(Seq<char>),
    /// A capture reference whose id does not fit `usize`.
    RefOverflow,
}

/// The insert kind a name denotes, if any.
pub open spec fn known_insert(name: Seq<char>) -> Option<PatternInsert> {
    if name == "RAND"@ {
        Some(PatternInsert::Random)
    } else if name == "ORIG"@ || name == "ORIGINAL"@ {
        Some(PatternInsert::Original)
    } else if name == "DATE_MODIFIED"@ {
        Some(PatternInsert::DateModified)
    } else if name == "NOW"@ {
        Some(PatternInsert::Now)
    } else {
        None
    }
}

/// Whether a full capture reference `/capN/` stands at `i`; `i` points at the
/// opening `/`.
pub open spec fn cap_ref_at(s: Seq<char>, i: int) -> bool {
    let d = digits_end(s, i + 4);
    &&& i + 4 <= s.len()
    &&& s[i + 1] == 'c'
    &&& s[i + 2] == 'a'
    &&& s[i + 3] == 'p'
    &&& d > i + 4
    &&& d < s.len()
    &&& s[d] == '/'
}

/// Scan elements from `i` to the end of the input: maximal literal runs, and
/// at each `/` first a capture reference, then an insert, in that order.
pub open spec fn spec_scan_elems(s: Seq<char>, i: int, acc: Seq<PatternElemView>) -> ElemsScan
    recommends
        0 <= i <= s.len(),
    decreases s.len() - i,
    when 0 <= i <= s.len()
    via spec_scan_elems_decreases
{
    if i >= s.len() {
        ElemsScan::Done(acc)
    } else if s[i] != '/' {
        let e = lit_end(s, i);
        spec_scan_elems(s, e, acc.push(PatternElemView::Literal(s.subrange(i, e))))
    } else if cap_ref_at(s, i) {
        let d = digits_end(s, i + 4);
        if digits_val(s.subrange(i + 4, d)) > usize::MAX {
            ElemsScan::RefOverflow
        } else {
            spec_scan_elems(
                s,
                d + 1,
                acc.push(
                    PatternElemView::Insert(
                        PatternInsert::CaptureGroup(digits_val(s.subrange(i + 4, d)) as usize),
                    ),
                ),
            )
        }
    } else {
        let e = lit_end(s, i + 1);
        if e == i + 1 {
            ElemsScan::Syntax
        } else {
            match known_insert(s.subrange(i + 1, e)) {
                None => ElemsScan::BadInsert(s.subrange(i, s.len() as int)),
                Some(k) => if e < s.len() && s[e] == '/' {
                    spec_scan_elems(s, e + 1, acc.push(PatternElemView::Insert(k)))
                } else {
                    ElemsScan::Syntax
                },
            }
        }
    }
}

#[via_fn]
proof fn spec_scan_elems_decreases(s: Seq<char>, i: int, acc: Seq<PatternElemView>) {
    if 0 <= i < s.len() {
        lemma_lit_end(s, i);
        if 0 <= i + 4 <= s.len() {
            lemma_digits_end(s, i + 4);
        }
        if i + 1 <= s.len() {
            lemma_lit_end(s, i + 1);
        }
    }
}

/// The capture-group table a definition list denotes: later definitions of
/// the same id shadow earlier ones.
pub open spec fn groups_text_map(defs: Seq<(usize, Seq<char>)>) -> Map<int, Seq<char>>
    decreases defs.len(),
{
    if defs.len() == 0 {
        Map::empty()
    } else {
        groups_text_map(defs.drop_last()).insert(defs.last().0 as int, defs.last().1)
    }
}

/// The first capture reference among the elements whose id has no definition.
pub open spec fn first_unknown_ref(
    elems: Seq<PatternElemView>,
    groups: Map<int, Seq<char>>,
    k: int,
) -> Option<usize>
    decreases elems.len() - k,
{
    if k < 0 || k >= elems.len() {
        None
    } else {
        match elems[k] {
            PatternElemView::Insert(PatternInsert::CaptureGroup(id)) => if !groups.contains_key(
                id as int,
            ) {
                Some(id)
            } else {
                first_unknown_ref(elems, groups, k + 1)
            },
            _ => first_unknown_ref(elems, groups, k + 1),
        }
    }
}

/// A successfully compiled pattern, mathematically: its element sequence and
/// capture-group table.
pub struct SpecPattern {
    pub elements: Seq<PatternElemView>,
    pub groups: Map<int, Seq<char>>,
}

/// What compiling a pattern text yields.
pub enum SpecParsed {
    Parsed(SpecPattern),
    Syntax,
    BadRegex(Seq<char>),
    BadInsert(Seq<char>),
    UnknownGroup(usize),
    Overflow,
}

/// The meaning of a pattern text: scan the optional capture-group block, then
/// the elements, then reject any reference to an undefined group.
pub open spec fn spec_parse(s: Seq<char>) -> SpecParsed {
    match spec_scan_defs(s, 0, Seq::empty()) {
        DefsScan::IdOverflow => SpecParsed::Overflow,
        DefsScan::BadRegex(src) => SpecParsed::BadRegex(src),
        DefsScan::NoBlock => spec_parse_elems(s, 0, Map::empty()),
        DefsScan::Block { end, defs } => spec_parse_elems(s, end, groups_text_map(defs)),
    }
}

pub open spec fn spec_parse_elems(s: Seq<char>, start: int, groups: Map<int, Seq<char>>) -> SpecParsed {
    match spec_scan_elems(s, start, Seq::empty()) {
        ElemsScan::Syntax => SpecParsed::Syntax,
        ElemsScan::BadInsert(t) => SpecParsed::BadInsert(t),
        ElemsScan::RefOverflow => SpecParsed::Overflow,
        ElemsScan::Done(elems) => match first_unknown_ref(elems, groups, 0) {
            Some(id) => SpecParsed::UnknownGroup(id),
            None => SpecParsed::Parsed(SpecPattern { elements: elems, groups }),
        },
    }
}

/// Value of the digit run `s[a..b]`, or `None` when it does not fit `usize`.
fn parse_usize(s: &Vec<char>, a: usize, b: usize) -> (r: Option<usize>)
    requires
        a <= b <= s.len(),
        forall|k: int| a <= k < b ==> is_digit_char(#[trigger] s@[k]),
    ensures
        r is Some <==> digits_val(s@.subrange(a as int, b as int)) <= usize::MAX,
        r matches Some(v) ==> v == digits_val(s@.subrange(a as int, b as int)),
{
    let mut v: usize = 0;
    let mut k: usize = a;
    proof {
        assert(s@.subrange(a as int, a as int) =~= Seq::<char>::empty());
    }
    while k < b
        invariant
            a <= k <= b <= s.len(),
            forall|j: int| a <= j < b ==> is_digit_char(#[trigger] s@[j]),
            v == digits_val(s@.subrange(a as int, k as int)),
        decreases b - k,
    {
        let c = s[k];
        let d: usize = ((c as u32) - 48) as usize;
        proof {
            lemma_digits_val_step(s@, a as int, k as int);
        }
        let m = match v.checked_mul(10) {
            Some(m) => m,
            None => {
                proof {
                    lemma_digits_val_extend(s@, a as int, k as int + 1, b as int);
                }
                return None;
            },
        };
        let w = match m.checked_add(d) {
            Some(w) => w,
            None => {
                proof {
                    lemma_digits_val_extend(s@, a as int, k as int + 1, b as int);
                }
                return None;
            },
        };
        v = w;
        k = k + 1;
    }
    proof {
        assert(s@.subrange(a as int, b as int) == s@.subrange(a as int, k as int));
    }
    Some(v)
}

fn too_large_msg() -> (r: String) {
    String::from_str("capture group id does not fit usize")
}

/// Scan the capture-group block, compiling each regex as it is read. `Ok(None)`
/// means no block stands at the head and parsing restarts at the beginning.
fn scan_defs_exec(s: &Vec<char>) -> (r: Result<
    Option<(usize, Vec<(usize, CaptureRegex)>)>,
    PatternParseError,
>)
    ensures
        r matches Ok(p) ==> match p {
            None => spec_scan_defs(s@, 0, Seq::empty()) is NoBlock,
            Some((end, gs)) => spec_scan_defs(s@, 0, Seq::empty()) == (DefsScan::Block {
                end: end as int,
                defs: defs_of(gs@),
            }) && end <= s@.len(),
        },
        r matches Err(e) ==> match e {
            PatternParseError::RegexError(_) => spec_scan_defs(s@, 0, Seq::empty()) is BadRegex,
            PatternParseError::Other(_) => spec_scan_defs(s@, 0, Seq::empty()) is IdOverflow,
            _ => false,
        },
{
    let mut i: usize = 0;
    let mut acc: Vec<(usize, CaptureRegex)> = Vec::new();
    proof {
        assert(defs_of(acc@) =~= Seq::<(usize, Seq<char>)>::empty());
    }
    loop
        invariant
            i <= s.len(),
            spec_scan_defs(s@, 0, Seq::empty()) == spec_scan_defs(s@, i as int, defs_of(acc@)),
        decreases s.len() - i,
    {
        let ghost pre = defs_of(acc@);
        if acc.len() > 0 && i < s.len() && s[i] == '|' {
            return Ok(Some((i + 1, acc)));
        }
        let d = scan_digits(s, i);
        if d == i {
            return Ok(None);
        }
        let id = match parse_usize(s, i, d) {
            Some(v) => v,
            None => {
                return Err(PatternParseError::Other(too_large_msg()));
            },
        };
        if d == s.len() || s[d] != '"' {
            return Ok(None);
        }
        let q = scan_not_quote(s, d + 1);
        if q == s.len() {
            return Ok(None);
        }
        let src_chars = sub_chars(s, d + 1, q);
        let src = string_from_chars(&src_chars);
        match CaptureRegex::compile(src.as_str()) {
            Err(e) => {
                return Err(PatternParseError::RegexError(regex_error_message(&e)));
            },
            Ok(cr) => {
                acc.push((id, cr));
                proof {
                    assert(defs_of(acc@) =~= pre.push((id, s@.subrange(d + 1, q as int))));
                }
                i = q + 1;
            },
        }
    }
}

fn lookup_insert(name: &str) -> (r: Option<PatternInsert>)
    ensures
        r == known_insert(name@),
{
    if str_eq(name, "RAND") {
        Some(PatternInsert::Random)
    } else if str_eq(name, "ORIG") || str_eq(name, "ORIGINAL") {
        Some(PatternInsert::Original)
    } else if str_eq(name, "DATE_MODIFIED") {
        Some(PatternInsert::DateModified)
    } else if str_eq(name, "NOW") {
        Some(PatternInsert::Now)
    } else {
        None
    }
}

/// If a full capture reference `/capN/` stands at `i`, the end of its digit
/// run; `i` points at the opening `/`.
fn cap_probe(s: &Vec<char>, i: usize) -> (r: Option<usize>)
    requires
        i < s.len(),
    ensures
        r is Some <==> cap_ref_at(s@, i as int),
        r matches Some(d) ==> d == digits_end(s@, i as int + 4) && i + 4 < d < s.len()
            && s@[d as int] == '/' && (forall|k: int|
            i + 4 <= k < d ==> is_digit_char(#[trigger] s@[k])),
{
    if s.len() - i < 4 {
        return None;
    }
    if !(s[i + 1] == 'c' && s[i + 2] == 'a' && s[i + 3] == 'p') {
        return None;
    }
    let d = scan_digits(s, i + 4);
    if d > i + 4 && d < s.len() && s[d] == '/' {
        Some(d)
    } else {
        None
    }
}

/// Scan elements from `start` to the end of the input.
fn scan_elems_exec(s: &Vec<char>, start: usize) -> (r: Result<Vec<PatternElem>, PatternParseError>)
    requires
        start <= s.len(),
    ensures
        r matches Ok(es) ==> spec_scan_elems(s@, start as int, Seq::empty()) == ElemsScan::Done(
            views_of(es@),
        ),
        r matches Err(e) ==> match e {
            PatternParseError::SyntaxError => spec_scan_elems(s@, start as int, Seq::empty())
                is Syntax,
            PatternParseError::NonexistentInsert(m) => spec_scan_elems(
                s@,
                start as int,
                Seq::empty(),
            ) matches ElemsScan::BadInsert(t) && m@ == t,
            PatternParseError::Other(_) => spec_scan_elems(s@, start as int, Seq::empty())
                is RefOverflow,
            _ => false,
        },
{
    let mut i: usize = start;
    let mut acc: Vec<PatternElem> = Vec::new();
    proof {
        assert(views_of(acc@) =~= Seq::<PatternElemView>::empty());
    }
    loop
        invariant
            i <= s.len(),
            spec_scan_elems(s@, start as int, Seq::empty()) == spec_scan_elems(
                s@,
                i as int,
                views_of(acc@),
            ),
        decreases s.len() - i,
    {
        let ghost pre = views_of(acc@);
        if i == s.len() {
            return Ok(acc);
        }
        if s[i] != '/' {
            let e = scan_not_slash(s, i);
            let lit = string_from_chars(&sub_chars(s, i, e));
            acc.push(PatternElem::Literal(lit));
            proof {
                assert(views_of(acc@) =~= pre.push(
                    PatternElemView::Literal(s@.subrange(i as int, e as int)),
                ));
            }
            i = e;
        } else {
            match cap_probe(s, i) {
                Some(d) => {
                    let id = match parse_usize(s, i + 4, d) {
                        Some(v) => v,
                        None => {
                            return Err(PatternParseError::Other(too_large_msg()));
                        },
                    };
                    acc.push(PatternElem::Insert(PatternInsert::CaptureGroup(id)));
                    proof {
                        assert(views_of(acc@) =~= pre.push(
                            PatternElemView::Insert(PatternInsert::CaptureGroup(id)),
                        ));
                    }
                    i = d + 1;
                },
                None => {
                    let e = scan_not_slash(s, i + 1);
                    if e == i + 1 {
                        return Err(PatternParseError::SyntaxError);
                    }
                    let name = string_from_chars(&sub_chars(s, i + 1, e));
                    match lookup_insert(name.as_str()) {
                        None => {
                            let rest = string_from_chars(&sub_chars(s, i, s.len()));
                            return Err(PatternParseError::NonexistentInsert(rest));
                        },
                        Some(k) => {
                            if e == s.len() || s[e] != '/' {
                                return Err(PatternParseError::SyntaxError);
                            }
                            acc.push(PatternElem::Insert(k));
                            proof {
                                assert(views_of(acc@) =~= pre.push(PatternElemView::Insert(k)));
                            }
                            i = e + 1;
                        },
                    }
                },
            }
        }
    }
}

/// A definition list and the capture-regex vector built from it denote the
/// same table.
proof fn lemma_groups_text(gs: Seq<(usize, CaptureRegex)>)
    ensures
        groups_text_map(defs_of(gs)) == spec_groups_of(gs),
    decreases gs.len(),
{
    if gs.len() > 0 {
        assert(defs_of(gs).drop_last() =~= defs_of(gs.drop_last()));
        lemma_groups_text(gs.drop_last());
    }
}

/// The table a capture-regex vector denotes contains exactly the ids that
/// occur in the vector.
proof fn lemma_groups_contains(gs: Seq<(usize, CaptureRegex)>, id: usize)
    ensures
        spec_groups_of(gs).contains_key(id as int) <==> exists|j: int|
            0 <= j < gs.len() && (#[trigger] gs[j]).0 == id,
    decreases gs.len(),
{
    if gs.len() > 0 {
        lemma_groups_contains(gs.drop_last(), id);
        if gs.last().0 == id {
            assert(gs[gs.len() - 1].0 == id);
        } else if spec_groups_of(gs).contains_key(id as int) {
            let j = choose|j: int| 0 <= j < gs.drop_last().len() && (#[trigger] gs.drop_last()[j]).0
                == id;
            assert(gs[j].0 == id);
        } else {
            assert(forall|j: int| 0 <= j < gs.len() - 1 ==> (#[trigger] gs[j]) == gs.drop_last()[j]);
        }
    }
}

/// Whether some definition in the table carries `id`.
fn contains_group(gs: &Vec<(usize, CaptureRegex)>, id: usize) -> (r: bool)
    ensures
        r == spec_groups_of(gs@).contains_key(id as int),
{
    proof {
        lemma_groups_contains(gs@, id);
    }
    let mut j: usize = 0;
    while j < gs.len()
        invariant
            j <= gs@.len(),
            forall|k: int| 0 <= k < j ==> (#[trigger] gs@[k]).0 != id,
        decreases gs@.len() - j,
    {
        if gs[j].0 == id {
            proof {
                lemma_groups_contains(gs@, id);
                assert(exists|t: int| 0 <= t < gs@.len() && (#[trigger] gs@[t]).0 == id) by {
                    assert(0 <= j < gs@.len() && (gs@[j as int]).0 == id);
                }
            }
            return true;
        }
        j = j + 1;
    }
    false
}

/// The first capture reference among `elems` that `gs` does not define.
fn find_unknown_ref(elems: &Vec<PatternElem>, gs: &Vec<(usize, CaptureRegex)>) -> (r: Option<
    usize,
>)
    ensures
        r == first_unknown_ref(views_of(elems@), spec_groups_of(gs@), 0),
{
    let ghost ev = views_of(elems@);
    let ghost gm = spec_groups_of(gs@);
    let mut k: usize = 0;
    while k < elems.len()
        invariant
            k <= elems@.len(),
            ev == views_of(elems@),
            gm == spec_groups_of(gs@),
            first_unknown_ref(ev, gm, 0) == first_unknown_ref(ev, gm, k as int),
        decreases elems@.len() - k,
    {
        match &elems[k] {
            PatternElem::Insert(PatternInsert::CaptureGroup(id)) => {
                if !contains_group(gs, *id) {
                    return Some(*id);
                }
            },
            _ => {},
        }
        k = k + 1;
    }
    None
}

/// Every element reference is defined when no unknown reference is found.
proof fn lemma_no_unknown(elems: Seq<PatternElemView>, groups: Map<int, Seq<char>>, k: int)
    requires
        0 <= k,
        first_unknown_ref(elems, groups, k) is None,
    ensures
        forall|j: int|
            k <= j < elems.len() ==> match #[trigger] elems[j] {
                PatternElemView::Insert(PatternInsert::CaptureGroup(id)) => groups.contains_key(
                    id as int,
                ),
                _ => true,
            },
    decreases elems.len() - k,
{
    if k < elems.len() {
        lemma_no_unknown(elems, groups, k + 1);
    }
}

impl RenamePattern {
    /// Compile a pattern text. On success the pattern's elements and
    /// capture-group table are exactly what the grammar assigns to the text
    /// ([`spec_parse`]); each rejection reports the grammar's reason for it.
    pub fn parse(inp: &str, options: ActionOptions) -> (r: Result<RenamePattern, PatternParseError>)
        ensures
            r is Ok <==> spec_parse(inp@) is Parsed,
            r matches Ok(p) ==> spec_parse(inp@) matches SpecParsed::Parsed(sp)
                && p.elems_view() == sp.elements && p.groups_map() == sp.groups,
            r matches Ok(p) ==> p.wf() && p.spec_options() == options && p.spec_input() == Some(
                inp@,
            ) && p.spec_preset() is None,
            r matches Ok(p) ==> p.groups_seq() == spec_parsed_defs(inp@),
            spec_parse(inp@) is Syntax ==> r == Err::<RenamePattern, _>(
                PatternParseError::SyntaxError,
            ),
            spec_parse(inp@) matches SpecParsed::BadInsert(t) ==> (r matches Err(e) && e matches
                PatternParseError::NonexistentInsert(m) && m@ == t),
            spec_parse(inp@) is BadRegex ==> (r matches Err(e) && e is RegexError),
            spec_parse(inp@) matches SpecParsed::UnknownGroup(id) ==> r == Err::<RenamePattern, _>(
                PatternParseError::NonexistentCapGroup(id),
            ),
            spec_parse(inp@) is Overflow ==> (r matches Err(e) && e is Other),
    {
        let s = chars_of(inp);
        let (start, groups) = match scan_defs_exec(&s) {
            Err(e) => {
                return Err(e);
            },
            Ok(None) => (0usize, Vec::new()),
            Ok(Some((end, gs))) => (end, gs),
        };
        proof {
            lemma_groups_text(groups@);
            assert(defs_of(groups@) =~= spec_parsed_defs(inp@));
        }
        let elements = match scan_elems_exec(&s, start) {
            Err(e) => {
                return Err(e);
            },
            Ok(es) => es,
        };
        if let Some(id) = find_unknown_ref(&elements, &groups) {
            return Err(PatternParseError::NonexistentCapGroup(id));
        }
        let p = RenamePattern {
            capture_groups: groups,
            elements,
            preset_info: None,
            input: Some(inp.to_owned()),
            options,
        };
        proof {
            lemma_no_unknown(p.elems_view(), p.groups_map(), 0);
        }
        Ok(p)
    }
}

/// The capture-group definition list the scanner reads from `inp`, in
/// source order; empty when no block stands at the head.
pub open spec fn spec_parsed_defs(inp: Seq<char>) -> Seq<(usize, Seq<char>)> {
    match spec_scan_defs(inp, 0, Seq::empty()) {
        DefsScan::Block { end, defs } => defs,
        _ => Seq::empty(),
    }
}

/// A successful compilation of `inp` yields exactly these elements and this
/// capture-group table.
pub open spec fn parses_to(
    inp: Seq<char>,
    elements: Seq<PatternElemView>,
    groups: Map<int, Seq<char>>,
) -> bool {
    spec_parse(inp) matches SpecParsed::Parsed(sp) && sp.elements == elements && sp.groups
        == groups
}

/// Parse determinism: two successful compilations of the same pattern text
/// agree on their elements and on their capture-group regex source texts.
pub proof fn lemma_parse_deterministic(
    inp: Seq<char>,
    e1: Seq<PatternElemView>,
    g1: Map<int, Seq<char>>,
    e2: Seq<PatternElemView>,
    g2: Map<int, Seq<char>>,
)
    requires
        parses_to(inp, e1, g1),
        parses_to(inp, e2, g2),
    ensures
        e1 == e2,
        g1 == g2,
{
}

} // verus!