//! Compiled rename patterns: an ordered sequence of elements (literal text
//! and dynamic inserts) plus a table of numbered capture-group regexes and
//! the options that govern how a computed name is applied.

pub mod capture;
pub mod parser;

use vstd::prelude::*;

use crate::error::ActionError;
use crate::fs_model::FileTime;
use crate::patterns::capture::{regex_found_matches, CaptureRegex};
use crate::text::{
    base_name_of, chars_of, concat_all, decimal_of, extension_of, string_from_chars, sub_chars,
    u32_to_decimal, with_base_name, with_extension,
};

verus! {

/// A dynamic token resolved when a pattern is applied to a file.
#[derive(Clone, Copy, PartialEq, Eq, Structural, Debug)]
pub enum PatternInsert {
    Random,
    Original,
    CaptureGroup(usize),
    DateModified,
    Now,
}

/// One element of a compiled pattern.
#[derive(Debug)]
pub enum PatternElem {
    Literal(String),
    Insert(PatternInsert),
}

/// The mathematical shape of a pattern element: literal text is a character
/// sequence.
pub enum PatternElemView {
    Literal(Seq<char>),
    Insert(PatternInsert),
}

impl View for PatternElem {
    type V = PatternElemView;

    open spec fn view(&self) -> PatternElemView {
        match self {
            PatternElem::Literal(s) => PatternElemView::Literal(s@),
            PatternElem::Insert(i) => PatternElemView::Insert(*i),
        }
    }
}

/// How a computed name is applied: whether the source file's extension is
/// forced onto the result, and whether an existing target may be replaced.
#[derive(Clone, Copy, Debug)]
pub struct ActionOptions {
    pub preserve_file_extension: bool,
    pub overwrite: bool,
}

impl ActionOptions {
    pub fn new(preserve_file_extension: bool, overwrite: bool) -> (r: Self)
        ensures
            r.preserve_file_extension == preserve_file_extension,
            r.overwrite == overwrite,
    {
        Self { preserve_file_extension, overwrite }
    }
}

impl Default for ActionOptions {
    /// Both options are off by default: extensions are left as the pattern
    /// wrote them, and collisions are resolved non-destructively.
    fn default() -> (r: Self)
        ensures
            !r.preserve_file_extension,
            !r.overwrite,
    {
        ActionOptions { preserve_file_extension: false, overwrite: false }
    }
}

/// The element sequence a vector of elements denotes.
pub open spec fn views_of(es: Seq<PatternElem>) -> Seq<PatternElemView> {
    es.map_values(|e: PatternElem| e@)
}

/// The (id, source text) pairs a capture-group vector denotes.
pub open spec fn defs_of(gs: Seq<(usize, CaptureRegex)>) -> Seq<(usize, Seq<char>)> {
    gs.map_values(|g: (usize, CaptureRegex)| (g.0, g.1@))
}

/// The capture-group table as a map from group id to regex source text,
/// where a later entry for the same id shadows an earlier one.
pub open spec fn spec_groups_of(gs: Seq<(usize, CaptureRegex)>) -> Map<int, Seq<char>>
    decreases gs.len(),
{
    if gs.len() == 0 {
        Map::empty()
    } else {
        spec_groups_of(gs.drop_last()).insert(gs.last().0 as int, gs.last().1@)
    }
}

/// A compiled rename pattern. Immutable once built: an ordered element
/// sequence, the capture-group table, and application options, plus the raw
/// source text or preset name it came from.
pub struct RenamePattern {
    capture_groups: Vec<(usize, CaptureRegex)>,
    elements: Vec<PatternElem>,
    preset_info: Option<&'static str>,
    input: Option<String>,
    options: ActionOptions,
}

impl RenamePattern {
    /// The element sequence, as element views.
    pub closed spec fn elems_view(&self) -> Seq<PatternElemView> {
        views_of(self.elements@)
    }

    /// The capture-group table, as a map from id to regex source text.
    pub closed spec fn groups_map(&self) -> Map<int, Seq<char>> {
        spec_groups_of(self.capture_groups@)
    }

    /// The capture-group table as (id, source text) pairs, in table order.
    pub closed spec fn groups_seq(&self) -> Seq<(usize, Seq<char>)> {
        defs_of(self.capture_groups@)
    }

    /// The application options.
    pub closed spec fn spec_options(&self) -> ActionOptions {
        self.options
    }

    /// The preset name, as a character sequence.
    pub closed spec fn spec_preset(&self) -> Option<Seq<char>> {
        match self.preset_info {
            Some(s) => Some(s@),
            None => None,
        }
    }

    /// The raw source text, as a character sequence.
    pub closed spec fn spec_input(&self) -> Option<Seq<char>> {
        match self.input {
            Some(s) => Some(s@),
            None => None,
        }
    }

    /// Well-formed: every capture group an element refers to is present in
    /// the table.
    pub closed spec fn wf(&self) -> bool {
        forall|k: int|
            0 <= k < self.elems_view().len() ==> match #[trigger] self.elems_view()[k] {
                PatternElemView::Insert(PatternInsert::CaptureGroup(id)) => self.groups_map(
                ).contains_key(id as int),
                _ => true,
            }
    }

    /// The pre-built "Randomize" preset: a single random-value insert, no
    /// capture groups, bypassing the grammar.
    pub fn randomize(options: ActionOptions) -> (r: Self)
        ensures
            r.elems_view() == seq![PatternElemView::Insert(PatternInsert::Random)],
            r.groups_map() == Map::<int, Seq<char>>::empty(),
            r.spec_options() == options,
            r.spec_preset() == Some("Randomize"@),
            r.spec_input() is None,
            r.wf(),
    {
        let r = Self {
            capture_groups: Vec::new(),
            elements: vec![PatternElem::Insert(PatternInsert::Random)],
            preset_info: Some("Randomize"),
            input: None,
            options,
        };
        proof {
            assert(r.elems_view() =~= seq![PatternElemView::Insert(PatternInsert::Random)]);
        }
        r
    }

    /// The preset name this pattern was built from, if any.
    pub fn preset_info(&self) -> (r: Option<&'static str>)
        ensures
            r is Some <==> self.spec_preset() is Some,
            r matches Some(s) ==> self.spec_preset() == Some(s@),
    {
        self.preset_info
    }

    /// The raw pattern text this pattern was compiled from, if any.
    pub fn input(&self) -> (r: Option<&String>)
        ensures
            r is Some <==> self.spec_input() is Some,
            r matches Some(s) ==> self.spec_input() == Some(s@),
    {
        self.input.as_ref()
    }

    /// The application options.
    pub fn options(&self) -> (r: ActionOptions)
        ensures
            r == self.spec_options(),
    {
        self.options
    }

    /// The elements, for inspection.
    pub fn elements(&self) -> (r: &Vec<PatternElem>)
        ensures
            views_of(r@) == self.elems_view(),
    {
        &self.elements
    }

    /// The capture-group table as (id, source text) pairs, in table order.
    pub fn capture_sources(&self) -> (r: Vec<(usize, String)>)
        ensures
            r@.len() == self.groups_seq().len(),
            forall|i: int|
                0 <= i < r@.len() ==> r@[i].0 == self.groups_seq()[i].0 && r@[i].1@
                    == self.groups_seq()[i].1,
    {
        let mut r: Vec<(usize, String)> = Vec::new();
        let mut i: usize = 0;
        while i < self.capture_groups.len()
            invariant
                i <= self.capture_groups@.len(),
                r@.len() == i,
                forall|k: int|
                    0 <= k < i ==> r@[k].0 == self.capture_groups@[k].0 && r@[k].1@
                        == self.capture_groups@[k].1@,
            decreases self.capture_groups@.len() - i,
        {
            let (id, cr) = &self.capture_groups[i];
            r.push((*id, cr.source().clone()));
            i = i + 1;
        }
        r
    }
}


/// Relies on `rand::random::<u32>`: a freshly drawn 32-bit value; nothing is
/// assumed of which one comes back.
#[verifier::external_body]
pub(crate) fn random_u32() -> u32 {
    rand::random::<u32>()
}

/// Relies on `chrono::Local::now` and `chrono::DateTime::to_rfc3339` for the
/// current wall-clock instant rendered in the local zone. Nothing is assumed
/// of which instant comes back; of the text only that it is RFC 3339
/// date-time text, whose grammar has no slash.
#[verifier::external_body]
fn now_rfc3339() -> (r: String)
    ensures
        forall|i: int| 0 <= i < r@.len() ==> r@[i] != '/',
{
    chrono::Local::now().to_rfc3339()
}

/// Relies on `chrono::DateTime::from_timestamp`, `with_timezone` and
/// `to_rfc3339`, rendering a modification instant in the local zone; an
/// out-of-range instant renders as empty text. Of the text only RFC 3339
/// shape is assumed: its grammar has no slash.
#[verifier::external_body]
fn mtime_rfc3339(t: FileTime) -> (r: String)
    ensures
        forall|i: int| 0 <= i < r@.len() ==> r@[i] != '/',
{
    match chrono::DateTime::from_timestamp(t.secs, t.nanos) {
        Some(dt) => dt.with_timezone(&chrono::Local).to_rfc3339(),
        None => String::new(),
    }
}

/// The dynamic values one application resolves: the random draws in order of
/// occurrence, and the rendered clock and modification texts.
pub struct ApplyDyn {
    pub rands: Seq<u32>,
    pub now: Seq<char>,
    pub modified: Seq<char>,
}

/// The concatenated text of every match of the group's regex in the base
/// name; a group with no matches yields empty text.
pub open spec fn group_text(groups: Map<int, Seq<char>>, id: usize, fname: Seq<char>) -> Seq<
    char,
> {
    concat_all(regex_found_matches(groups[id as int], fname))
}

/// How many random inserts stand among the first `i` elements.
pub open spec fn rand_count(elems: Seq<PatternElemView>, i: int) -> nat
    decreases i,
{
    if i <= 0 {
        0
    } else {
        rand_count(elems, i - 1) + (if elems[i - 1] == PatternElemView::Insert(
            PatternInsert::Random,
        ) {
            1nat
        } else {
            0nat
        })
    }
}

/// The text one element contributes; `ri` indexes the random draw this
/// element would consume.
pub open spec fn elem_text(
    e: PatternElemView,
    fname: Seq<char>,
    groups: Map<int, Seq<char>>,
    d: ApplyDyn,
    ri: int,
) -> Seq<char> {
    match e {
        PatternElemView::Literal(t) => t,
        PatternElemView::Insert(PatternInsert::Random) => decimal_of(d.rands[ri] as nat),
        PatternElemView::Insert(PatternInsert::Original) => fname,
        PatternElemView::Insert(PatternInsert::CaptureGroup(id)) => group_text(groups, id, fname),
        PatternElemView::Insert(PatternInsert::DateModified) => d.modified,
        PatternElemView::Insert(PatternInsert::Now) => d.now,
    }
}

/// The text the first `i` elements render, walking them in order.
pub open spec fn render_pre(
    elems: Seq<PatternElemView>,
    fname: Seq<char>,
    groups: Map<int, Seq<char>>,
    d: ApplyDyn,
    i: int,
) -> Seq<char>
    decreases i,
{
    if i <= 0 {
        Seq::empty()
    } else {
        render_pre(elems, fname, groups, d, i - 1) + elem_text(
            elems[i - 1],
            fname,
            groups,
            d,
            rand_count(elems, i - 1) as int,
        )
    }
}

/// The base name a pattern renders for a file.
pub open spec fn rendered(
    elems: Seq<PatternElemView>,
    groups: Map<int, Seq<char>>,
    fname: Seq<char>,
    d: ApplyDyn,
) -> Seq<char> {
    render_pre(elems, fname, groups, d, elems.len() as int)
}

/// The candidate path a pattern computes for a file: the rendered name,
/// with the source's extension forced onto it when the options say so,
/// standing in the source's directory.
pub open spec fn applied_path(
    elems: Seq<PatternElemView>,
    groups: Map<int, Seq<char>>,
    opts: ActionOptions,
    fpath: Seq<char>,
    d: ApplyDyn,
) -> Seq<char> {
    let fname = base_name_of(fpath);
    let out = rendered(elems, groups, fname, d);
    let named = if opts.preserve_file_extension {
        with_extension(
            out,
            match extension_of(fname) {
                Some(ext) => ext,
                None => Seq::empty(),
            },
        )
    } else {
        out
    };
    with_base_name(fpath, named)
}

/// Whether any element reads the file's modification time.
pub open spec fn needs_modified(elems: Seq<PatternElemView>) -> bool {
    exists|i: int|
        0 <= i < elems.len() && elems[i] == PatternElemView::Insert(PatternInsert::DateModified)
}

/// Rendering a prefix reads only the random draws that prefix consumes.
proof fn lemma_render_pre_stable(
    elems: Seq<PatternElemView>,
    fname: Seq<char>,
    groups: Map<int, Seq<char>>,
    d1: ApplyDyn,
    d2: ApplyDyn,
    i: int,
)
    requires
        0 <= i <= elems.len(),
        d1.now == d2.now,
        d1.modified == d2.modified,
        forall|k: int| 0 <= k < rand_count(elems, i) ==> d1.rands[k] == d2.rands[k],
    ensures
        render_pre(elems, fname, groups, d1, i) == render_pre(elems, fname, groups, d2, i),
    decreases i,
{
    if i > 0 {
        assert(rand_count(elems, i - 1) <= rand_count(elems, i));
        lemma_render_pre_stable(elems, fname, groups, d1, d2, i - 1);
    }
}

fn uses_insert(es: &Vec<PatternElem>, which: PatternInsert) -> (r: bool)
    ensures
        r == exists|i: int|
            0 <= i < views_of(es@).len() && views_of(es@)[i] == PatternElemView::Insert(which),
{
    let mut i: usize = 0;
    while i < es.len()
        invariant
            i <= es@.len(),
            forall|k: int| 0 <= k < i ==> views_of(es@)[k] != PatternElemView::Insert(which),
        decreases es@.len() - i,
    {
        match &es[i] {
            PatternElem::Insert(ins) => {
                if *ins == which {
                    proof {
                        assert(views_of(es@)[i as int] == PatternElemView::Insert(which));
                    }
                    return true;
                }
            },
            _ => {},
        }
        i = i + 1;
    }
    false
}

/// The regex of the last definition carrying `id`, which gives the table's
/// entry for `id`.
fn last_group<'a>(gs: &'a Vec<(usize, CaptureRegex)>, id: usize) -> (r: Option<&'a CaptureRegex>)
    ensures
        r is Some <==> spec_groups_of(gs@).contains_key(id as int),
        r matches Some(cr) ==> cr@ == spec_groups_of(gs@)[id as int],
{
    let mut j: usize = gs.len();
    proof {
        assert(gs@.subrange(0, gs@.len() as int) =~= gs@);
    }
    while j > 0
        invariant
            j <= gs@.len(),
            spec_groups_of(gs@).contains_key(id as int) == spec_groups_of(
                gs@.subrange(0, j as int),
            ).contains_key(id as int),
            spec_groups_of(gs@).contains_key(id as int) ==> spec_groups_of(gs@)[id as int]
                == spec_groups_of(gs@.subrange(0, j as int))[id as int],
        decreases j,
    {
        proof {
            assert(gs@.subrange(0, j as int).drop_last() =~= gs@.subrange(0, j as int - 1));
            assert(gs@.subrange(0, j as int).last() == gs@[j as int - 1]);
        }
        if gs[j - 1].0 == id {
            return Some(&gs[j - 1].1);
        }
        j = j - 1;
    }
    proof {
        assert(gs@.subrange(0, 0) =~= Seq::<(usize, CaptureRegex)>::empty());
    }
    None
}

/// Appending one more piece extends a concatenation on the right.
proof fn lemma_concat_all_push(ss: Seq<Seq<char>>, x: Seq<char>)
    ensures
        concat_all(ss.push(x)) == concat_all(ss) + x,
    decreases ss.len(),
{
    if ss.len() == 0 {
        assert(ss.push(x).first() == x);
        assert(ss.push(x).drop_first() =~= Seq::<Seq<char>>::empty());
        assert(concat_all(Seq::<Seq<char>>::empty()) == Seq::<char>::empty());
        assert(concat_all(ss.push(x)) == x + Seq::<char>::empty());
        assert(concat_all(ss.push(x)) =~= concat_all(ss) + x);
    } else {
        assert(ss.push(x).first() == ss.first());
        assert(ss.push(x).drop_first() =~= ss.drop_first().push(x));
        lemma_concat_all_push(ss.drop_first(), x);
        assert(concat_all(ss.push(x)) =~= concat_all(ss) + x);
    }
}

/// All the matches of a capture regex in the base name, concatenated.
fn concat_group_matches(cr: &CaptureRegex, fname: &str) -> (r: String)
    ensures
        r@ == concat_all(regex_found_matches(cr@, fname@)),
{
    let ms = cr.find_matches(fname);
    let ghost target = regex_found_matches(cr@, fname@);
    let mut out = String::new();
    let mut i: usize = 0;
    proof {
        assert(target.subrange(0, 0) =~= Seq::<Seq<char>>::empty());
    }
    while i < ms.len()
        invariant
            i <= ms@.len(),
            ms.deep_view() == target,
            out@ == concat_all(target.subrange(0, i as int)),
        decreases ms@.len() - i,
    {
        proof {
            assert(target.subrange(0, i as int + 1) =~= target.subrange(0, i as int).push(
                target[i as int],
            ));
            lemma_concat_all_push(target.subrange(0, i as int), target[i as int]);
            assert(ms.deep_view()[i as int] == ms@[i as int]@);
        }
        out.append(ms[i].as_str());
        i = i + 1;
    }
    proof {
        assert(target.subrange(0, ms@.len() as int) =~= target);
    }
    out
}


/// `out` with its extension forced to the source base name's: the source's
/// extension replaces whatever the pattern rendered, and a source without
/// one strips the rendered extension.
fn force_extension(out: String, fname_chars: &Vec<char>) -> (r: String)
    ensures
        r@ == with_extension(
            out@,
            match extension_of(fname_chars@) {
                Some(e) => e,
                None => Seq::empty(),
            },
        ),
{
    let ext: Vec<char> = match crate::text::last_dot_exec(fname_chars) {
        None => Vec::new(),
        Some(i) => {
            if i == 0 {
                Vec::new()
            } else {
                sub_chars(fname_chars, i + 1, fname_chars.len())
            }
        },
    };
    proof {
        assert(ext@ == match extension_of(fname_chars@) {
            Some(e) => e,
            None => Seq::<char>::empty(),
        });
    }
    let out_chars = chars_of(out.as_str());
    let ghost out_v = out@;
    let stem = match crate::text::last_dot_exec(&out_chars) {
        None => out_chars,
        Some(k) => {
            if k == 0 {
                out_chars
            } else {
                sub_chars(&out_chars, 0, k)
            }
        },
    };
    if ext.len() == 0 {
        proof {
            assert(stem@ == with_extension(out_v, ext@));
        }
        return string_from_chars(&stem);
    }
    let mut named = stem;
    let ghost stem_v = named@;
    named.push('.');
    let mut i: usize = 0;
    while i < ext.len()
        invariant
            i <= ext@.len(),
            named@ == stem_v + seq!['.'] + ext@.subrange(0, i as int),
        decreases ext@.len() - i,
    {
        named.push(ext[i]);
        i = i + 1;
        proof {
            assert(named@ =~= stem_v + seq!['.'] + ext@.subrange(0, i as int));
        }
    }
    proof {
        assert(ext@.subrange(0, ext@.len() as int) =~= ext@);
        assert(named@ == with_extension(out_v, ext@));
    }
    string_from_chars(&named)
}

impl RenamePattern {
    /// Interpret this pattern against one file path, producing the candidate
    /// path: the rendered base name replaces the source's, in the same
    /// directory. When the options say so, the candidate's extension is
    /// forced to equal the source's — none at all when the source has none.
    /// `fpath` is taken as already resolved; `modified` is the source's
    /// modification time, needed exactly when the pattern uses it. The
    /// result is not collision-checked.
    pub fn apply_to_file_name(&self, fpath: &str, modified: Option<FileTime>) -> (r: Result<
        String,
        ActionError,
    >)
        requires
            self.wf(),
        ensures
            r is Ok <==> !(needs_modified(self.elems_view()) && modified is None),
            r matches Ok(out) ==> exists|d: ApplyDyn|
                out@ == applied_path(
                    self.elems_view(),
                    self.groups_map(),
                    self.spec_options(),
                    fpath@,
                    d,
                ),
            r matches Err(e) ==> e is Other,
    {
        let ghost ev = self.elems_view();
        let ghost gm = self.groups_map();
        let needs_dm = uses_insert(&self.elements, PatternInsert::DateModified);
        let modified_str: Option<String> = if needs_dm {
            match modified {
                None => {
                    return Err(
                        ActionError::Other(
                            String::from_str(
                                "cannot read the modification time of the source file",
                            ),
                        ),
                    );
                },
                Some(t) => Some(mtime_rfc3339(t)),
            }
        } else {
            None
        };
        let uses_now = uses_insert(&self.elements, PatternInsert::Now);
        let now_str: Option<String> = if uses_now {
            Some(now_rfc3339())
        } else {
            None
        };
        let chars = chars_of(fpath);
        let bstart = crate::text::base_start_exec(&chars);
        let fname_chars = sub_chars(&chars, bstart, chars.len());
        let fname = string_from_chars(&fname_chars);
        let ghost fname_v = base_name_of(fpath@);
        let ghost mod_view: Seq<char> = match &modified_str {
            Some(m) => m@,
            None => Seq::empty(),
        };
        let ghost now_view: Seq<char> = match &now_str {
            Some(n) => n@,
            None => Seq::empty(),
        };
        let ghost mut rands: Seq<u32> = Seq::empty();
        let mut out = String::new();
        let mut i: usize = 0;
        while i < self.elements.len()
            invariant
                i <= self.elements@.len(),
                self.wf(),
                ev == self.elems_view(),
                gm == self.groups_map(),
                fname@ == fname_v,
                needs_dm == needs_modified(ev),
                needs_dm ==> modified_str is Some,
                uses_now == exists|k: int|
                    0 <= k < ev.len() && ev[k] == PatternElemView::Insert(PatternInsert::Now),
                uses_now ==> now_str is Some,
                mod_view == match &modified_str {
                    Some(m) => m@,
                    None => Seq::<char>::empty(),
                },
                now_view == match &now_str {
                    Some(n) => n@,
                    None => Seq::<char>::empty(),
                },
                rands.len() == rand_count(ev, i as int),
                out@ == render_pre(
                    ev,
                    fname_v,
                    gm,
                    ApplyDyn { rands, now: now_view, modified: mod_view },
                    i as int,
                ),
            decreases self.elements@.len() - i,
        {
            let ghost d_pre = ApplyDyn { rands, now: now_view, modified: mod_view };
            proof {
                assert(ev[i as int] == self.elements@[i as int]@);
            }
            match &self.elements[i] {
                PatternElem::Literal(lit) => {
                    out.append(lit.as_str());
                },
                PatternElem::Insert(ins) => {
                    match ins {
                        PatternInsert::Random => {
                            let rv = random_u32();
                            let txt = u32_to_decimal(rv);
                            out.append(txt.as_str());
                            proof {
                                let d_new = ApplyDyn {
                                    rands: rands.push(rv),
                                    now: now_view,
                                    modified: mod_view,
                                };
                                lemma_render_pre_stable(
                                    ev,
                                    fname_v,
                                    gm,
                                    d_pre,
                                    d_new,
                                    i as int,
                                );
                                rands = rands.push(rv);
                            }
                        },
                        PatternInsert::Original => {
                            out.append(fname.as_str());
                        },
                        PatternInsert::CaptureGroup(id) => {
                            match last_group(&self.capture_groups, *id) {
                                Some(cr) => {
                                    let t = concat_group_matches(cr, fname.as_str());
                                    out.append(t.as_str());
                                },
                                None => {
                                    proof {
                                        assert(false);
                                    }
                                },
                            }
                        },
                        PatternInsert::DateModified => {
                            match &modified_str {
                                Some(m) => {
                                    out.append(m.as_str());
                                },
                                None => {
                                    proof {
                                        assert(needs_modified(ev)) by {
                                            assert(ev[i as int] == PatternElemView::Insert(
                                                PatternInsert::DateModified,
                                            ));
                                        }
                                        assert(false);
                                    }
                                },
                            }
                        },
                        PatternInsert::Now => {
                            match &now_str {
                                Some(n) => {
                                    out.append(n.as_str());
                                },
                                None => {
                                    proof {
                                        assert(exists|k: int|
                                            0 <= k < ev.len() && ev[k]
                                                == PatternElemView::Insert(PatternInsert::Now))
                                            by {
                                            assert(ev[i as int] == PatternElemView::Insert(
                                                PatternInsert::Now,
                                            ));
                                        }
                                        assert(false);
                                    }
                                },
                            }
                        },
                    }
                },
            }
            i = i + 1;
        }
        proof {
            assert(out@ == rendered(ev, gm, fname_v, ApplyDyn {
                rands,
                now: now_view,
                modified: mod_view,
            }));
        }
        let named = if self.options.preserve_file_extension {
            force_extension(out, &fname_chars)
        } else {
            out
        };
        let mut result = string_from_chars(&sub_chars(&chars, 0, bstart));
        result.append(named.as_str());
        proof {
            let d = ApplyDyn { rands, now: now_view, modified: mod_view };
            assert(result@ == applied_path(ev, gm, self.spec_options(), fpath@, d));
        }
        Ok(result)
    }
}

/// Every element is literal text.
pub open spec fn all_literal(elems: Seq<PatternElemView>) -> bool {
    forall|i: int| 0 <= i < elems.len() ==> (#[trigger] elems[i]) is Literal
}

/// The concatenated literal text of the first `i` elements; a non-literal
/// contributes nothing.
pub open spec fn literal_concat(elems: Seq<PatternElemView>, i: int) -> Seq<char>
    decreases i,
{
    if i <= 0 {
        Seq::empty()
    } else {
        literal_concat(elems, i - 1) + match elems[i - 1] {
            PatternElemView::Literal(t) => t,
            _ => Seq::<char>::empty(),
        }
    }
}

/// Literal round-trip: a pattern of only literal elements renders exactly
/// the concatenation of its literal text, for any base name and any dynamic
/// values.
pub proof fn lemma_literal_round_trip(
    elems: Seq<PatternElemView>,
    groups: Map<int, Seq<char>>,
    fname: Seq<char>,
    d: ApplyDyn,
)
    requires
        all_literal(elems),
    ensures
        rendered(elems, groups, fname, d) == literal_concat(elems, elems.len() as int),
    decreases elems.len(),
{
    lemma_literal_round_trip_pre(elems, groups, fname, d, elems.len() as int);
}

proof fn lemma_literal_round_trip_pre(
    elems: Seq<PatternElemView>,
    groups: Map<int, Seq<char>>,
    fname: Seq<char>,
    d: ApplyDyn,
    i: int,
)
    requires
        all_literal(elems),
        i <= elems.len(),
    ensures
        render_pre(elems, fname, groups, d, i) == literal_concat(elems, i),
    decreases i,
{
    if i > 0 {
        lemma_literal_round_trip_pre(elems, groups, fname, d, i - 1);
    }
}


impl PartialEq for PatternElem {
    /// Two elements are equal when their views are: same literal text, or
    /// the same insert.
    fn eq(&self, other: &Self) -> (r: bool) {
        match (self, other) {
            (PatternElem::Literal(a), PatternElem::Literal(b)) => crate::text::str_eq(
                a.as_str(),
                b.as_str(),
            ),
            (PatternElem::Insert(a), PatternElem::Insert(b)) => *a == *b,
            _ => false,
        }
    }
}

impl vstd::std_specs::cmp::PartialEqSpecImpl for PatternElem {
    open spec fn obeys_eq_spec() -> bool {
        true
    }

    open spec fn eq_spec(&self, other: &Self) -> bool {
        self@ == other@
    }
}

/// The group ids a capture table defines: its map's keys are exactly the
/// ids occurring among its definitions.
proof fn lemma_groups_dom(gs: Seq<(usize, CaptureRegex)>)
    ensures
        forall|k: int|
            #[trigger] spec_groups_of(gs).contains_key(k) <==> exists|j: int|
                0 <= j < gs.len() && ((#[trigger] gs[j]).0 as int) == k,
    decreases gs.len(),
{
    if gs.len() > 0 {
        lemma_groups_dom(gs.drop_last());
        assert(forall|j: int| 0 <= j < gs.len() - 1 ==> (#[trigger] gs[j]) == gs.drop_last()[j]);
        assert forall|k: int| #[trigger] spec_groups_of(gs).contains_key(k) implies exists|j: int|
            0 <= j < gs.len() && ((#[trigger] gs[j]).0 as int) == k by {
            if k == gs.last().0 as int {
                assert(((gs[gs.len() - 1]).0 as int) == k);
            } else {
                assert(spec_groups_of(gs.drop_last()).contains_key(k));
                let j = choose|j: int|
                    0 <= j < gs.drop_last().len() && ((#[trigger] gs.drop_last()[j]).0 as int)
                        == k;
                assert(((gs[j]).0 as int) == k);
            }
        }
        assert forall|k: int|
            (exists|j: int| 0 <= j < gs.len() && ((#[trigger] gs[j]).0 as int) == k) implies (
        #[trigger] spec_groups_of(gs).contains_key(k)) by {
            let j = choose|j: int| 0 <= j < gs.len() && ((#[trigger] gs[j]).0 as int) == k;
            if j < gs.len() - 1 {
                assert(exists|t: int|
                    0 <= t < gs.drop_last().len() && ((#[trigger] gs.drop_last()[t]).0 as int)
                        == k) by {
                    assert(((gs.drop_last()[j]).0 as int) == k);
                }
                assert(spec_groups_of(gs.drop_last()).contains_key(k));
            }
        }
    }
}

impl PartialEq for RenamePattern {
    /// Two patterns are equal when their elements agree and their capture
    /// tables denote the same map: the same group ids, and for each id the
    /// same regex source text — taken from the last definition of the id on
    /// either side, since a later definition shadows an earlier one. The
    /// raw source text, preset name and options play no part in equality.
    fn eq(&self, other: &Self) -> (r: bool) {
        let ghost m1 = spec_groups_of(self.capture_groups@);
        let ghost m2 = spec_groups_of(other.capture_groups@);
        proof {
            assert(views_of(self.elements@).len() == self.elements@.len());
            assert(views_of(other.elements@).len() == other.elements@.len());
        }
        if self.elements.len() != other.elements.len() {
            return false;
        }
        let mut k: usize = 0;
        #[verifier::loop_isolation(false)]
        while k < self.elements.len()
            invariant
                k <= self.elements@.len(),
                self.elements@.len() == other.elements@.len(),
                forall|t: int| 0 <= t < k ==> views_of(self.elements@)[t] == views_of(
                    other.elements@,
                )[t],
            decreases self.elements@.len() - k,
        {
            if !(self.elements[k] == other.elements[k]) {
                proof {
                    assert(views_of(self.elements@)[k as int] != views_of(other.elements@)[
                        k as int
                    ]);
                }
                return false;
            }
            k = k + 1;
        }
        proof {
            assert(views_of(self.elements@) =~= views_of(other.elements@));
        }
        // each id defined here must be defined there with the same source
        let mut g: usize = 0;
        #[verifier::loop_isolation(false)]
        while g < self.capture_groups.len()
            invariant
                g <= self.capture_groups@.len(),
                views_of(self.elements@) == views_of(other.elements@),
                forall|t: int|
                    0 <= t < g ==> {
                        let key = ((#[trigger] self.capture_groups@[t]).0 as int);
                        m2.contains_key(key) && m1.contains_key(key) && m2[key] == m1[key]
                    },
            decreases self.capture_groups@.len() - g,
        {
            let id = self.capture_groups[g].0;
            let mine = match last_group(&self.capture_groups, id) {
                Some(cr) => cr,
                None => {
                    proof {
                        lemma_groups_dom(self.capture_groups@);
                        assert(((self.capture_groups@[g as int]).0 as int) == id as int);
                        assert(false);
                    }
                    return false;
                },
            };
            match last_group(&other.capture_groups, id) {
                None => {
                    proof {
                        assert(m1.contains_key(id as int));
                        assert(!m2.contains_key(id as int));
                    }
                    return false;
                },
                Some(theirs) => {
                    if !crate::text::str_eq(mine.source().as_str(), theirs.source().as_str()) {
                        proof {
                            assert(m1[id as int] == mine@);
                            assert(m2[id as int] == theirs@);
                        }
                        return false;
                    }
                },
            }
            g = g + 1;
        }
        // and every id defined there must be defined here
        let mut h: usize = 0;
        #[verifier::loop_isolation(false)]
        while h < other.capture_groups.len()
            invariant
                h <= other.capture_groups@.len(),
                views_of(self.elements@) == views_of(other.elements@),
                forall|t: int|
                    0 <= t < self.capture_groups@.len() ==> {
                        let key = ((#[trigger] self.capture_groups@[t]).0 as int);
                        m2.contains_key(key) && m1.contains_key(key) && m2[key] == m1[key]
                    },
                forall|t: int|
                    0 <= t < h ==> m1.contains_key(
                        ((#[trigger] other.capture_groups@[t]).0 as int),
                    ),
            decreases other.capture_groups@.len() - h,
        {
            let id = other.capture_groups[h].0;
            match last_group(&self.capture_groups, id) {
                None => {
                    proof {
                        lemma_groups_dom(other.capture_groups@);
                        assert(m2.contains_key(id as int)) by {
                            assert(((other.capture_groups@[h as int]).0 as int) == id as int);
                        }
                        assert(!m1.contains_key(id as int));
                    }
                    return false;
                },
                Some(_) => {},
            }
            h = h + 1;
        }
        proof {
            lemma_groups_dom(self.capture_groups@);
            lemma_groups_dom(other.capture_groups@);
            assert forall|key: int| #[trigger] m1.contains_key(key) implies m2.contains_key(key)
                && m1[key] == m2[key] by {
                let j = choose|j: int|
                    0 <= j < self.capture_groups@.len() && ((
                    #[trigger] self.capture_groups@[j]).0 as int) == key;
            }
            assert forall|key: int| #[trigger] m2.contains_key(key) implies m1.contains_key(
                key,
            ) by {
                let j = choose|j: int|
                    0 <= j < other.capture_groups@.len() && ((
                    #[trigger] other.capture_groups@[j]).0 as int) == key;
            }
            assert(m1 =~= m2);
        }
        true
    }
}

impl vstd::std_specs::cmp::PartialEqSpecImpl for RenamePattern {
    open spec fn obeys_eq_spec() -> bool {
        true
    }

    /// Equality means: the element sequences agree, and the capture tables
    /// denote the same id-to-source map.
    open spec fn eq_spec(&self, other: &Self) -> bool {
        self.elems_view() == other.elems_view() && self.groups_map() == other.groups_map()
    }
}


/// Whether an element reads a dynamic value that two applications may
/// resolve differently: a random draw, the clock, or the modification time.
pub open spec fn elem_is_dynamic(e: PatternElemView) -> bool {
    ||| e == PatternElemView::Insert(PatternInsert::Random)
    ||| e == PatternElemView::Insert(PatternInsert::Now)
    ||| e == PatternElemView::Insert(PatternInsert::DateModified)
}

/// Application determinism: a pattern with no random, clock or
/// modification-time inserts renders the same name under any dynamic
/// values — its candidate is a function of the pattern and the base name
/// alone.
pub proof fn lemma_apply_deterministic(
    elems: Seq<PatternElemView>,
    groups: Map<int, Seq<char>>,
    fname: Seq<char>,
    d1: ApplyDyn,
    d2: ApplyDyn,
)
    requires
        forall|i: int| 0 <= i < elems.len() ==> !elem_is_dynamic(#[trigger] elems[i]),
    ensures
        rendered(elems, groups, fname, d1) == rendered(elems, groups, fname, d2),
{
    lemma_render_pre_deterministic(elems, groups, fname, d1, d2, elems.len() as int);
}

proof fn lemma_render_pre_deterministic(
    elems: Seq<PatternElemView>,
    groups: Map<int, Seq<char>>,
    fname: Seq<char>,
    d1: ApplyDyn,
    d2: ApplyDyn,
    i: int,
)
    requires
        i <= elems.len(),
        forall|k: int| 0 <= k < elems.len() ==> !elem_is_dynamic(#[trigger] elems[k]),
    ensures
        render_pre(elems, fname, groups, d1, i) == render_pre(elems, fname, groups, d2, i),
    decreases i,
{
    if i > 0 {
        lemma_render_pre_deterministic(elems, groups, fname, d1, d2, i - 1);
        assert(!elem_is_dynamic(elems[i - 1]));
    }
}

} // verus!