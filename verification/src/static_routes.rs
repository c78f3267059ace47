//! Route resolution and static expansion.
//!
//! A route pattern is a `/`-separated path whose segments are either
//! literals or named dynamic segments (`:name` or `*name`). Each route may
//! own a producer whose output maps every dynamic segment it owns to an
//! ordered set of legal values. Resolution walks the ancestor chain of a
//! pattern from the root down, accumulating one table of segment values in
//! which a descendant's contribution overrides an ancestor's for the same
//! name, and then enumerates the Cartesian product of the accumulated value
//! sets: one concrete output path per combination, each paired with its
//! fully bound parameter context.

use vstd::prelude::*;

verus! {

use vstd::pervasive::VecAdditionalExecFns;
use vstd::string::StrSliceExecFns;

use crate::datalayer::{Datalayer, Operation};
use crate::world::{apply_batches, apply_commands, lemma_apply_batches_snoc, CommandModel,
    StoreModel};
use crate::{find_last, last_index_of};

/// One segment of a route pattern.
pub enum Segment {
    /// A literal path segment, emitted unchanged.
    Literal(String),
    /// A named dynamic segment, substituted by each of its legal values.
    Dynamic(String),
}

/// The model of one pattern segment.
#[verifier::ext_equal]
pub enum SegmentModel {
    Literal(Seq<char>),
    Dynamic(Seq<char>),
}

impl View for Segment {
    type V = SegmentModel;

    open spec fn view(&self) -> SegmentModel {
        match self {
            Segment::Literal(s) => SegmentModel::Literal(s@),
            Segment::Dynamic(s) => SegmentModel::Dynamic(s@),
        }
    }
}

/// The model of one entry of a params map: a segment name and its ordered
/// set of legal values.
#[verifier::ext_equal]
pub struct ParamEntryModel {
    pub name: Seq<char>,
    pub values: Seq<Seq<char>>,
}

struct ParamEntry {
    name: String,
    values: Vec<String>,
}

impl View for ParamEntry {
    type V = ParamEntryModel;

    closed spec fn view(&self) -> ParamEntryModel {
        ParamEntryModel { name: self.name@, values: self.values@.map_values(|s: String| s@) }
    }
}

/// A producer's output: for each dynamic segment name it owns, the ordered,
/// producer-defined set of legal values. Order is preserved, never
/// re-sorted.
pub struct StaticParamsMap {
    entries: Vec<ParamEntry>,
}

impl View for StaticParamsMap {
    type V = Seq<ParamEntryModel>;

    closed spec fn view(&self) -> Seq<ParamEntryModel> {
        self.entries@.map_values(|e: ParamEntry| e@)
    }
}

/// The position of the first entry named `name`, or -1 if none is.
pub open spec fn param_index_of(entries: Seq<ParamEntryModel>, name: Seq<char>) -> int
    decreases entries.len(),
{
    if entries.len() == 0 {
        -1
    } else if entries.first().name == name {
        0
    } else {
        let rest = param_index_of(entries.drop_first(), name);
        if rest < 0 {
            -1
        } else {
            rest + 1
        }
    }
}

/// The values bound to `name`, if the map has an entry for it.
pub open spec fn param_lookup(entries: Seq<ParamEntryModel>, name: Seq<char>) -> Option<
    Seq<Seq<char>>,
> {
    let i = param_index_of(entries, name);
    if i >= 0 {
        Some(entries[i].values)
    } else {
        None
    }
}

/// Bind `name` to `values`: an existing entry for the same name is replaced
/// in place (keeping its position), otherwise the entry is appended.
pub open spec fn param_insert(
    entries: Seq<ParamEntryModel>,
    name: Seq<char>,
    values: Seq<Seq<char>>,
) -> Seq<ParamEntryModel> {
    let i = param_index_of(entries, name);
    if i >= 0 {
        entries.update(i, ParamEntryModel { name: name, values: values })
    } else {
        entries.push(ParamEntryModel { name: name, values: values })
    }
}

/// Accumulate `from` into `acc`, entry by entry in order: `from`'s binding
/// overrides `acc`'s for the same name.
pub open spec fn param_add_all(
    acc: Seq<ParamEntryModel>,
    from: Seq<ParamEntryModel>,
) -> Seq<ParamEntryModel>
    decreases from.len(),
{
    if from.len() == 0 {
        acc
    } else {
        param_add_all(param_insert(acc, from.first().name, from.first().values), from.drop_first())
    }
}

pub proof fn lemma_param_index_of_bounds(entries: Seq<ParamEntryModel>, name: Seq<char>)
    ensures
        -1 <= param_index_of(entries, name) < entries.len(),
        param_index_of(entries, name) >= 0 ==> entries[param_index_of(entries, name)].name == name,
        param_index_of(entries, name) >= 0 ==> forall|j: int|
            0 <= j < param_index_of(entries, name) ==> entries[j].name != name,
        param_index_of(entries, name) == -1 ==> forall|j: int|
            0 <= j < entries.len() ==> entries[j].name != name,
    decreases entries.len(),
{
    if entries.len() > 0 && entries.first().name != name {
        lemma_param_index_of_bounds(entries.drop_first(), name);
        assert(forall|j: int|
            1 <= j < entries.len() ==> entries[j] == entries.drop_first()[j - 1]);
    }
}

proof fn lemma_param_index_of_is(entries: Seq<ParamEntryModel>, name: Seq<char>, k: int)
    requires
        0 <= k < entries.len(),
        entries[k].name == name,
        forall|j: int| 0 <= j < k ==> entries[j].name != name,
    ensures
        param_index_of(entries, name) == k,
    decreases k,
{
    if k > 0 {
        assert(entries.first().name != name);
        lemma_param_index_of_is(entries.drop_first(), name, k - 1);
    }
}

/// Binding a name speaks only for that name: it becomes retrievable with
/// exactly the given values, and every other name's binding is untouched.
/// This is what lets a descendant's contribution override an ancestor's
/// entry by entry during accumulation.
pub proof fn lemma_insert_lookup(
    entries: Seq<ParamEntryModel>,
    name: Seq<char>,
    values: Seq<Seq<char>>,
)
    ensures
        param_lookup(param_insert(entries, name, values), name) == Some(values),
        forall|other: Seq<char>|
            other != name ==> #[trigger] param_lookup(param_insert(entries, name, values), other)
                == param_lookup(entries, other),
{
    lemma_param_index_of_bounds(entries, name);
    let inserted = param_insert(entries, name, values);
    let idx = param_index_of(entries, name);
    if idx >= 0 {
        lemma_param_index_of_is(inserted, name, idx);
    } else {
        lemma_param_index_of_is(inserted, name, entries.len() as int);
    }
    assert forall|other: Seq<char>| other != name implies #[trigger] param_lookup(
        inserted,
        other,
    ) == param_lookup(entries, other) by {
        lemma_param_index_of_bounds(entries, other);
        lemma_param_index_of_bounds(inserted, other);
        let o = param_index_of(entries, other);
        let oi = param_index_of(inserted, other);
        if o >= 0 {
            assert(inserted[o].name == other);
            lemma_param_index_of_is(inserted, other, o);
        } else {
            if oi >= 0 {
                assert(inserted[oi].name == other);
                if idx >= 0 {
                    assert(entries[oi].name == other);
                } else {
                    if oi < entries.len() {
                        assert(entries[oi].name == other);
                    }
                }
                assert(false);
            }
        }
    }
}

impl StaticParamsMap {
    /// An empty map: no names bound.
    pub fn new() -> (r: Self)
        ensures
            r@ =~= Seq::<ParamEntryModel>::empty(),
    {
        StaticParamsMap { entries: Vec::new() }
    }

    /// Bind `name` to `values`, replacing any previous binding of the same
    /// name in place.
    pub fn insert(&mut self, name: String, values: Vec<String>)
        ensures
            final(self)@ =~= param_insert(
                old(self)@,
                name@,
                values@.map_values(|s: String| s@),
            ),
    {
        let n = self.entries.len();
        let mut i: usize = 0;
        while i < n
            invariant
                n == self.entries.len(),
                i <= n,
                forall|j: int| 0 <= j < i ==> self@[j].name != name@,
                self@ == old(self)@,
            decreases n - i,
        {
            if string_equal(&self.entries[i].name, name.as_str()) {
                proof {
                    lemma_param_index_of_bounds(old(self)@, name@);
                    assert(old(self)@[i as int].name == name@);
                    assert(param_index_of(old(self)@, name@) == i);
                }
                let entry = ParamEntry { name, values };
                self.entries.set(i, entry);
                return ;
            }
            i = i + 1;
        }
        proof {
            lemma_param_index_of_bounds(old(self)@, name@);
            assert(param_index_of(old(self)@, name@) == -1);
        }
        self.entries.push(ParamEntry { name, values });
    }

    /// A copy of the values bound to `name`, if any.
    pub fn get(&self, name: &str) -> (r: Option<Vec<String>>)
        ensures
            match r {
                Some(values) => param_lookup(self@, name@) == Some(
                    values@.map_values(|s: String| s@),
                ),
                None => param_lookup(self@, name@) is None,
            },
    {
        let n = self.entries.len();
        let mut i: usize = 0;
        while i < n
            invariant
                n == self.entries.len(),
                i <= n,
                forall|j: int| 0 <= j < i ==> self@[j].name != name@,
            decreases n - i,
        {
            if string_equal(&self.entries[i].name, name) {
                proof {
                    lemma_param_index_of_bounds(self@, name@);
                    assert(self@[i as int].name == name@);
                    assert(param_index_of(self@, name@) == i);
                }
                return Some(clone_strings(&self.entries[i].values));
            }
            i = i + 1;
        }
        proof {
            lemma_param_index_of_bounds(self@, name@);
        }
        None
    }

    /// The number of names bound.
    pub fn len(&self) -> (n: usize)
        ensures
            n == self@.len(),
    {
        self.entries.len()
    }

    /// Accumulate all of `other`'s bindings into this map, in `other`'s
    /// order: `other`'s binding overrides this map's for the same name.
    pub fn add_params(&mut self, other: &StaticParamsMap)
        ensures
            final(self)@ =~= param_add_all(old(self)@, other@),
    {
        proof {
            assert(other@.skip(0) =~= other@);
        }
        let n = other.entries.len();
        let mut i: usize = 0;
        while i < n
            invariant
                n == other.entries.len(),
                i <= n,
                param_add_all(old(self)@, other@) == param_add_all(self@, other@.skip(i as int)),
            decreases n - i,
        {
            let name = other.entries[i].name.clone();
            let values = clone_strings(&other.entries[i].values);
            proof {
                assert(other@.skip(i as int).first() == other@[i as int]);
                assert(other@.skip(i as int).drop_first() =~= other@.skip(i + 1));
            }
            self.insert(name, values);
            i = i + 1;
        }
        proof {
            assert(other@.skip(n as int) =~= Seq::<ParamEntryModel>::empty());
        }
    }
}

/// The length of the leading run of non-`/` characters.
pub open spec fn run_len(s: Seq<char>) -> nat
    decreases s.len(),
{
    if s.len() == 0 || s.first() == '/' {
        0
    } else {
        1 + run_len(s.drop_first())
    }
}

pub proof fn lemma_run_len_le(s: Seq<char>)
    ensures
        run_len(s) <= s.len(),
    decreases s.len(),
{
    if s.len() > 0 && s.first() != '/' {
        lemma_run_len_le(s.drop_first());
    }
}

proof fn lemma_run_len_is(s: Seq<char>, k: int)
    requires
        0 <= k <= s.len(),
        forall|j: int| 0 <= j < k ==> s[j] != '/',
        k == s.len() || s[k] == '/',
    ensures
        run_len(s) == k,
    decreases k,
{
    if k > 0 {
        assert(s.first() != '/');
        lemma_run_len_is(s.drop_first(), k - 1);
    }
}

/// Split a pattern into its maximal non-empty runs of non-`/` characters.
pub open spec fn spec_split_segments(s: Seq<char>) -> Seq<Seq<char>>
    decreases s.len(),
{
    if s.len() == 0 {
        Seq::empty()
    } else if s.first() == '/' {
        spec_split_segments(s.drop_first())
    } else {
        proof {
            lemma_run_len_le(s);
        }
        seq![s.take(run_len(s) as int)] + spec_split_segments(s.skip(run_len(s) as int))
    }
}

/// Classify one run: a leading `:` or `*` marks a named dynamic segment,
/// anything else is a literal.
pub open spec fn spec_segment_of(run: Seq<char>) -> SegmentModel {
    if run.len() > 0 && (run.first() == ':' || run.first() == '*') {
        SegmentModel::Dynamic(run.drop_first())
    } else {
        SegmentModel::Literal(run)
    }
}

/// The segments of a route pattern, in order.
pub open spec fn spec_parse_path(s: Seq<char>) -> Seq<SegmentModel> {
    spec_split_segments(s).map_values(|run: Seq<char>| spec_segment_of(run))
}

/// Parse a route pattern into its segments: `/`-separated runs, each either
/// a literal or, with a leading `:` or `*`, a named dynamic segment.
pub fn parse_static_path(pattern: &str) -> (segments: Vec<Segment>)
    ensures
        segments@.map_values(|s: Segment| s@) =~= spec_parse_path(pattern@),
{
    let len = pattern.unicode_len();
    let mut segments: Vec<Segment> = Vec::new();
    let mut i: usize = 0;
    proof {
        assert(pattern@.skip(0) =~= pattern@);
    }
    while i < len
        invariant
            i <= len,
            len == pattern@.len(),
            spec_parse_path(pattern@) =~= segments@.map_values(|s: Segment| s@)
                + spec_split_segments(pattern@.skip(i as int)).map_values(
                |run: Seq<char>| spec_segment_of(run),
            ),
        decreases len - i,
    {
        if pattern.get_char(i) == '/' {
            proof {
                assert(pattern@.skip(i as int).drop_first() =~= pattern@.skip(i + 1));
            }
            i = i + 1;
        } else {
            let start = i;
            let mut j = i + 1;
            while j < len
                invariant
                    start < j <= len,
                    len == pattern@.len(),
                    forall|k: int| start <= k < j ==> pattern@[k] != '/',
                ensures
                    start < j <= len,
                    forall|k: int| start <= k < j ==> pattern@[k] != '/',
                    j == len || pattern@[j as int] == '/',
                decreases len - j,
            {
                if pattern.get_char(j) == '/' {
                    break ;
                }
                j = j + 1;
            }
            let run = pattern.substring_char(start, j);
            proof {
                let suffix = pattern@.skip(start as int);
                lemma_run_len_is(suffix, j - start);
                assert(suffix.take(j - start) =~= run@);
                assert(suffix.skip(j - start) =~= pattern@.skip(j as int));
                assert(spec_split_segments(suffix) =~= seq![run@] + spec_split_segments(
                    pattern@.skip(j as int),
                ));
            }
            let run_length = run.unicode_len();
            let head = run.get_char(0);
            let segment = if head == ':' || head == '*' {
                Segment::Dynamic(run.substring_char(1, run_length).to_owned())
            } else {
                Segment::Literal(run.to_owned())
            };
            proof {
                assert(segment@ =~= spec_segment_of(run@));
            }
            let ghost before = segments@.map_values(|s: Segment| s@);
            segments.push(segment);
            proof {
                assert(segments@.map_values(|s: Segment| s@) =~= before.push(segment@));
                assert((seq![run@] + spec_split_segments(pattern@.skip(j as int))).map_values(
                    |r: Seq<char>| spec_segment_of(r),
                ) =~= seq![spec_segment_of(run@)] + spec_split_segments(
                    pattern@.skip(j as int),
                ).map_values(|r: Seq<char>| spec_segment_of(r)));
            }
            i = j;
        }
    }
    proof {
        assert(pattern@.skip(len as int) =~= Seq::<char>::empty());
    }
    segments
}

/// Whether two strings hold the same characters.
fn string_equal(a: &String, b: &str) -> (r: bool)
    ensures
        r == (a@ == b@),
{
    let owned = b.to_owned();
    a.eq(&owned)
}

/// An exact copy of a vector of strings.
pub(crate) fn clone_strings(v: &Vec<String>) -> (r: Vec<String>)
    ensures
        r@.map_values(|s: String| s@) =~= v@.map_values(|s: String| s@),
        r@.len() == v@.len(),
{
    let mut r: Vec<String> = Vec::new();
    let mut i: usize = 0;
    while i < v.len()
        invariant
            i <= v@.len(),
            r@.len() == i,
            forall|j: int| 0 <= j < i ==> r@[j]@ == v@[j]@,
        decreases v@.len() - i,
    {
        r.push(v[i].clone());
        i = i + 1;
    }
    r
}


/// One bound parameter of a concrete path.
pub struct ParamBinding {
    /// The dynamic segment name.
    pub name: String,
    /// The concrete value bound to it.
    pub value: String,
}

/// The model of one bound parameter.
#[verifier::ext_equal]
pub struct ParamBindingModel {
    pub name: Seq<char>,
    pub value: Seq<char>,
}

impl View for ParamBinding {
    type V = ParamBindingModel;

    open spec fn view(&self) -> ParamBindingModel {
        ParamBindingModel { name: self.name@, value: self.value@ }
    }
}

/// One concrete output path: every dynamic segment substituted by a value,
/// paired with its fully bound parameter context in segment order.
pub struct ConcretePath {
    /// The concrete path segments, literals unchanged.
    pub segments: Vec<String>,
    /// The accumulated name-to-value bindings along this path.
    pub bindings: Vec<ParamBinding>,
}

/// The model of one concrete output path.
#[verifier::ext_equal]
pub struct ConcretePathModel {
    pub segments: Seq<Seq<char>>,
    pub bindings: Seq<ParamBindingModel>,
}

impl View for ConcretePath {
    type V = ConcretePathModel;

    open spec fn view(&self) -> ConcretePathModel {
        ConcretePathModel {
            segments: self.segments@.map_values(|s: String| s@),
            bindings: self.bindings@.map_values(|b: ParamBinding| b@),
        }
    }
}

/// The single path produced by a chain with no segments left.
pub open spec fn empty_path_model() -> ConcretePathModel {
    ConcretePathModel { segments: Seq::empty(), bindings: Seq::empty() }
}

/// Prefix a path with a literal segment.
pub open spec fn path_prepend_literal(l: Seq<char>, p: ConcretePathModel) -> ConcretePathModel {
    ConcretePathModel { segments: seq![l] + p.segments, bindings: p.bindings }
}

/// Prefix a path with a dynamic segment bound to `value`.
pub open spec fn path_prepend_bound(
    name: Seq<char>,
    value: Seq<char>,
    p: ConcretePathModel,
) -> ConcretePathModel {
    ConcretePathModel {
        segments: seq![value] + p.segments,
        bindings: seq![ParamBindingModel { name: name, value: value }] + p.bindings,
    }
}

/// Prefix every path of `rest` with the literal `l`.
pub open spec fn prepend_literal_all(l: Seq<char>, rest: Seq<ConcretePathModel>) -> Seq<
    ConcretePathModel,
> {
    rest.map_values(|p: ConcretePathModel| path_prepend_literal(l, p))
}

/// Prefix every path of `rest` with `name` bound to `value`.
pub open spec fn prepend_bound_all(
    name: Seq<char>,
    value: Seq<char>,
    rest: Seq<ConcretePathModel>,
) -> Seq<ConcretePathModel> {
    rest.map_values(|p: ConcretePathModel| path_prepend_bound(name, value, p))
}

/// Branch over each legal value of a dynamic segment, in producer order:
/// all paths for the first value, then all for the second, and so on. An
/// empty value set yields no paths at all.
pub open spec fn expand_values(
    name: Seq<char>,
    values: Seq<Seq<char>>,
    rest: Seq<ConcretePathModel>,
) -> Seq<ConcretePathModel>
    decreases values.len(),
{
    if values.len() == 0 {
        Seq::empty()
    } else {
        prepend_bound_all(name, values.first(), rest) + expand_values(
            name,
            values.drop_first(),
            rest,
        )
    }
}

/// The values accumulated for `name`, or the empty set for a name no
/// producer ever bound.
pub open spec fn lookup_or_empty(params: Seq<ParamEntryModel>, name: Seq<char>) -> Seq<Seq<char>> {
    match param_lookup(params, name) {
        Some(values) => values,
        None => Seq::empty(),
    }
}

/// The full static expansion of a segment chain against an accumulated
/// value table: the Cartesian product over every dynamic segment's value
/// set, segments iterated left to right and values in producer order.
pub open spec fn expand_segments(
    segs: Seq<SegmentModel>,
    params: Seq<ParamEntryModel>,
) -> Seq<ConcretePathModel>
    decreases segs.len(),
{
    if segs.len() == 0 {
        seq![empty_path_model()]
    } else {
        let rest = expand_segments(segs.drop_first(), params);
        match segs.first() {
            SegmentModel::Literal(l) => prepend_literal_all(l, rest),
            SegmentModel::Dynamic(n) => expand_values(n, lookup_or_empty(params, n), rest),
        }
    }
}

pub proof fn lemma_expand_values_snoc(
    name: Seq<char>,
    values: Seq<Seq<char>>,
    v: Seq<char>,
    rest: Seq<ConcretePathModel>,
)
    ensures
        expand_values(name, values.push(v), rest) =~= expand_values(name, values, rest)
            + prepend_bound_all(name, v, rest),
    decreases values.len(),
{
    if values.len() == 0 {
        reveal_with_fuel(expand_values, 3);
        assert(values.push(v).first() == v);
        assert(values.push(v).drop_first() =~= Seq::<Seq<char>>::empty());
        assert(prepend_bound_all(name, v, rest) + Seq::<ConcretePathModel>::empty()
            =~= prepend_bound_all(name, v, rest));
        assert(Seq::<ConcretePathModel>::empty() + prepend_bound_all(name, v, rest)
            =~= prepend_bound_all(name, v, rest));
        assert(expand_values(name, values.push(v), rest) =~= prepend_bound_all(name, v, rest));
    } else {
        assert(values.push(v).first() == values.first());
        assert(values.push(v).drop_first() =~= values.drop_first().push(v));
        lemma_expand_values_snoc(name, values.drop_first(), v, rest);
    }
}

/// Prefix each path of `rest` with the literal `l`, as values.
fn prepend_literal_paths(l: &String, rest: &Vec<ConcretePath>) -> (out: Vec<ConcretePath>)
    ensures
        out@.map_values(|p: ConcretePath| p@) =~= prepend_literal_all(
            l@,
            rest@.map_values(|p: ConcretePath| p@),
        ),
{
    let ghost target = prepend_literal_all(l@, rest@.map_values(|p: ConcretePath| p@));
    let mut out: Vec<ConcretePath> = Vec::new();
    let mut j: usize = 0;
    while j < rest.len()
        invariant
            j <= rest@.len(),
            target.len() == rest@.len(),
            out@.len() == j,
            forall|k: int| 0 <= k < rest@.len() ==> target[k] == path_prepend_literal(
                l@,
                rest@[k]@,
            ),
            forall|k: int| 0 <= k < j ==> out@[k]@ == target[k],
        decreases rest@.len() - j,
    {
        let p = &rest[j];
        let mut segments: Vec<String> = Vec::new();
        segments.push(l.clone());
        append_strings(&mut segments, &p.segments);
        let bindings = clone_bindings(&p.bindings);
        let q = ConcretePath { segments, bindings };
        proof {
            assert(q@ =~= path_prepend_literal(l@, rest@[j as int]@));
        }
        out.push(q);
        j = j + 1;
    }
    out
}

/// Prefix each path of `rest` with `name` bound to `value`, as values.
fn prepend_bound_paths(name: &String, value: &String, rest: &Vec<ConcretePath>) -> (out: Vec<
    ConcretePath,
>)
    ensures
        out@.map_values(|p: ConcretePath| p@) =~= prepend_bound_all(
            name@,
            value@,
            rest@.map_values(|p: ConcretePath| p@),
        ),
{
    let ghost target = prepend_bound_all(name@, value@, rest@.map_values(|p: ConcretePath| p@));
    let mut out: Vec<ConcretePath> = Vec::new();
    let mut j: usize = 0;
    while j < rest.len()
        invariant
            j <= rest@.len(),
            target.len() == rest@.len(),
            out@.len() == j,
            forall|k: int| 0 <= k < rest@.len() ==> target[k] == path_prepend_bound(
                name@,
                value@,
                rest@[k]@,
            ),
            forall|k: int| 0 <= k < j ==> out@[k]@ == target[k],
        decreases rest@.len() - j,
    {
        let p = &rest[j];
        let mut segments: Vec<String> = Vec::new();
        segments.push(value.clone());
        append_strings(&mut segments, &p.segments);
        let mut bindings: Vec<ParamBinding> = Vec::new();
        bindings.push(ParamBinding { name: name.clone(), value: value.clone() });
        append_bindings(&mut bindings, &p.bindings);
        let q = ConcretePath { segments, bindings };
        proof {
            assert(q@ =~= path_prepend_bound(name@, value@, rest@[j as int]@));
        }
        out.push(q);
        j = j + 1;
    }
    out
}

/// Append exact copies of `from`'s strings to `to`.
fn append_strings(to: &mut Vec<String>, from: &Vec<String>)
    ensures
        final(to)@.map_values(|s: String| s@) =~= old(to)@.map_values(|s: String| s@)
            + from@.map_values(|s: String| s@),
{
    let mut i: usize = 0;
    while i < from.len()
        invariant
            i <= from@.len(),
            to@.len() == old(to)@.len() + i,
            forall|k: int| 0 <= k < old(to)@.len() ==> to@[k] == old(to)@[k],
            forall|k: int| 0 <= k < i ==> to@[old(to)@.len() + k]@ == from@[k]@,
        decreases from@.len() - i,
    {
        to.push(from[i].clone());
        i = i + 1;
    }
}

/// Append exact copies of `from`'s bindings to `to`.
fn append_bindings(to: &mut Vec<ParamBinding>, from: &Vec<ParamBinding>)
    ensures
        final(to)@.map_values(|b: ParamBinding| b@) =~= old(to)@.map_values(|b: ParamBinding| b@)
            + from@.map_values(|b: ParamBinding| b@),
{
    let mut i: usize = 0;
    while i < from.len()
        invariant
            i <= from@.len(),
            to@.len() == old(to)@.len() + i,
            forall|k: int| 0 <= k < old(to)@.len() ==> to@[k] == old(to)@[k],
            forall|k: int| 0 <= k < i ==> to@[old(to)@.len() + k]@ == from@[k]@,
        decreases from@.len() - i,
    {
        let b = &from[i];
        to.push(ParamBinding { name: b.name.clone(), value: b.value.clone() });
        i = i + 1;
    }
}

/// An exact copy of a vector of bindings.
fn clone_bindings(v: &Vec<ParamBinding>) -> (r: Vec<ParamBinding>)
    ensures
        r@.map_values(|b: ParamBinding| b@) =~= v@.map_values(|b: ParamBinding| b@),
{
    let mut r: Vec<ParamBinding> = Vec::new();
    append_bindings(&mut r, v);
    proof {
        assert(r@.map_values(|b: ParamBinding| b@) =~= Seq::<ParamBindingModel>::empty()
            + v@.map_values(|b: ParamBinding| b@));
    }
    r
}

/// Expand the segment chain from `idx` on against the accumulated table.
fn expand_from(segments: &Vec<Segment>, idx: usize, params: &StaticParamsMap) -> (out: Vec<
    ConcretePath,
>)
    requires
        idx <= segments@.len(),
    ensures
        out@.map_values(|p: ConcretePath| p@) =~= expand_segments(
            segments@.map_values(|s: Segment| s@).skip(idx as int),
            params@,
        ),
    decreases segments@.len() - idx,
{
    let ghost segs = segments@.map_values(|s: Segment| s@);
    if idx == segments.len() {
        proof {
            assert(segs.skip(idx as int) =~= Seq::<SegmentModel>::empty());
        }
        let mut out: Vec<ConcretePath> = Vec::new();
        out.push(ConcretePath { segments: Vec::new(), bindings: Vec::new() });
        proof {
            assert(out@[0]@ =~= empty_path_model());
            assert(out@.map_values(|p: ConcretePath| p@) =~= seq![empty_path_model()]);
        }
        out
    } else {
        let rest = expand_from(segments, idx + 1, params);
        proof {
            assert(segs.skip(idx as int).first() == segs[idx as int]);
            assert(segs.skip(idx as int).drop_first() =~= segs.skip(idx + 1));
        }
        match &segments[idx] {
            Segment::Literal(l) => prepend_literal_paths(l, &rest),
            Segment::Dynamic(n) => {
                let values = match params.get(n.as_str()) {
                    Some(values) => values,
                    None => Vec::new(),
                };
                let ghost vals = values@.map_values(|s: String| s@);
                proof {
                    assert(vals =~= lookup_or_empty(params@, n@));
                }
                let ghost restm = rest@.map_values(|p: ConcretePath| p@);
                let mut out: Vec<ConcretePath> = Vec::new();
                let mut k: usize = 0;
                while k < values.len()
                    invariant
                        k <= values@.len(),
                        vals.len() == values@.len(),
                        forall|t: int| 0 <= t < values@.len() ==> values@[t]@ == vals[t],
                        restm == rest@.map_values(|p: ConcretePath| p@),
                        out@.map_values(|p: ConcretePath| p@) =~= expand_values(
                            n@,
                            vals.take(k as int),
                            restm,
                        ),
                    decreases values@.len() - k,
                {
                    let chunk = prepend_bound_paths(n, &values[k], &rest);
                    let ghost before = out@.map_values(|p: ConcretePath| p@);
                    let mut chunk = chunk;
                    let ghost chunkm = chunk@.map_values(|p: ConcretePath| p@);
                    out.append(&mut chunk);
                    proof {
                        assert(out@.map_values(|p: ConcretePath| p@) =~= before + chunkm);
                        lemma_expand_values_snoc(n@, vals.take(k as int), vals[k as int], restm);
                        assert(vals.take(k as int).push(vals[k as int]) =~= vals.take(k + 1));
                    }
                    k = k + 1;
                }
                proof {
                    assert(vals.take(values@.len() as int) =~= vals);
                }
                out
            },
        }
    }
}

/// Enumerate every concrete path of a segment chain: the Cartesian product
/// across the accumulated value sets of its dynamic segments, literals
/// unchanged, one concrete path per combination.
pub fn expand_static_path(segments: &Vec<Segment>, params: &StaticParamsMap) -> (out: Vec<
    ConcretePath,
>)
    ensures
        out@.map_values(|p: ConcretePath| p@) =~= expand_segments(
            segments@.map_values(|s: Segment| s@),
            params@,
        ),
{
    let out = expand_from(segments, 0, params);
    proof {
        assert(segments@.map_values(|s: Segment| s@).skip(0) =~= segments@.map_values(
            |s: Segment| s@,
        ));
    }
    out
}


/// The model of one static-data entry: a route pattern and the params map
/// its producer returned.
#[verifier::ext_equal]
pub struct StaticDataEntryModel {
    pub path: Seq<char>,
    pub params: Seq<ParamEntryModel>,
}

struct StaticDataEntry {
    path: String,
    params: StaticParamsMap,
}

impl View for StaticDataEntry {
    type V = StaticDataEntryModel;

    closed spec fn view(&self) -> StaticDataEntryModel {
        StaticDataEntryModel { path: self.path@, params: self.params@ }
    }
}

/// The collected producer outputs of a build, keyed by route pattern, in
/// collection order. A later entry for the same pattern overrides an
/// earlier one name by name.
pub struct StaticDataMap {
    entries: Vec<StaticDataEntry>,
}

impl View for StaticDataMap {
    type V = Seq<StaticDataEntryModel>;

    closed spec fn view(&self) -> Seq<StaticDataEntryModel> {
        self.entries@.map_values(|e: StaticDataEntry| e@)
    }
}

impl StaticDataMap {
    /// An empty collection.
    pub fn new() -> (r: Self)
        ensures
            r@ =~= Seq::<StaticDataEntryModel>::empty(),
    {
        StaticDataMap { entries: Vec::new() }
    }

    /// Record the params map produced for `path`.
    pub fn insert(&mut self, path: String, params: StaticParamsMap)
        ensures
            final(self)@ =~= old(self)@.push(
                StaticDataEntryModel { path: path@, params: params@ },
            ),
    {
        self.entries.push(StaticDataEntry { path, params });
    }

    /// The number of entries recorded.
    pub fn len(&self) -> (n: usize)
        ensures
            n == self@.len(),
    {
        self.entries.len()
    }
}

/// Whether position `l` of pattern `p` is a segment boundary, so that the
/// prefix of length `l` names an ancestor pattern.
pub open spec fn is_boundary(p: Seq<char>, l: int) -> bool {
    l == p.len() || p[l] == '/' || (l > 0 && p[l - 1] == '/')
}

/// Fold the params of every entry keyed `key` into `acc`, in entry order.
pub open spec fn add_matching(
    acc: Seq<ParamEntryModel>,
    entries: Seq<StaticDataEntryModel>,
    key: Seq<char>,
) -> Seq<ParamEntryModel>
    decreases entries.len(),
{
    if entries.len() == 0 {
        acc
    } else {
        add_matching(
            if entries.first().path == key {
                param_add_all(acc, entries.first().params)
            } else {
                acc
            },
            entries.drop_first(),
            key,
        )
    }
}

/// Walk the ancestor chain of `p` from the root down — every prefix of `p`
/// ending at a segment boundary, shortest first, `p` itself last — and fold
/// each ancestor's recorded params into one table, so that a descendant's
/// binding overrides an ancestor's for the same name.
pub open spec fn accumulate_from(
    acc: Seq<ParamEntryModel>,
    p: Seq<char>,
    data: Seq<StaticDataEntryModel>,
    l: int,
) -> Seq<ParamEntryModel>
    decreases p.len() + 1 - l,
{
    if l > p.len() {
        acc
    } else {
        accumulate_from(
            if is_boundary(p, l) {
                add_matching(acc, data, p.take(l))
            } else {
                acc
            },
            p,
            data,
            l + 1,
        )
    }
}

/// The one table of segment-name bindings for pattern `p`: all ancestors'
/// contributions accumulated top-down.
pub open spec fn accumulate_params(
    p: Seq<char>,
    data: Seq<StaticDataEntryModel>,
) -> Seq<ParamEntryModel> {
    accumulate_from(Seq::empty(), p, data, 0)
}

/// Accumulate the bindings a pattern inherits along its ancestor chain,
/// including its own.
pub fn accumulate_route_params(pattern: &str, data: &StaticDataMap) -> (acc: StaticParamsMap)
    ensures
        acc@ =~= accumulate_params(pattern@, data@),
{
    let mut acc = StaticParamsMap::new();
    let len = pattern.unicode_len();
    let mut l: usize = 0;
    while l < len
        invariant
            l <= len,
            len == pattern@.len(),
            accumulate_params(pattern@, data@) == accumulate_from(
                acc@,
                pattern@,
                data@,
                l as int,
            ),
        decreases len - l,
    {
        let boundary = pattern.get_char(l) == '/' || (l > 0 && pattern.get_char(l - 1) == '/');
        proof {
            assert(boundary == is_boundary(pattern@, l as int));
        }
        if boundary {
            let key = pattern.substring_char(0, l);
            proof {
                assert(key@ =~= pattern@.take(l as int));
            }
            add_matching_params(&mut acc, data, key);
        }
        l = l + 1;
    }
    proof {
        assert(is_boundary(pattern@, len as int));
        assert(pattern@.take(len as int) =~= pattern@);
    }
    add_matching_params(&mut acc, data, pattern);
    proof {
        assert(accumulate_from(acc@, pattern@, data@, len + 1) == acc@);
    }
    acc
}

/// Fold into `acc` the recorded params of every entry keyed `key`, in
/// entry order.
fn add_matching_params(acc: &mut StaticParamsMap, data: &StaticDataMap, key: &str)
    ensures
        final(acc)@ =~= add_matching(old(acc)@, data@, key@),
{
    proof {
        assert(data@.skip(0) =~= data@);
    }
    let n = data.entries.len();
    let mut j: usize = 0;
    while j < n
        invariant
            j <= n,
            n == data@.len(),
            add_matching(old(acc)@, data@, key@) == add_matching(acc@, data@.skip(j as int), key@),
        decreases n - j,
    {
        proof {
            assert(data@.skip(j as int).first() == data@[j as int]);
            assert(data@.skip(j as int).drop_first() =~= data@.skip(j + 1));
        }
        if string_equal(&data.entries[j].path, key) {
            acc.add_params(&data.entries[j].params);
        }
        j = j + 1;
    }
    proof {
        assert(data@.skip(n as int) =~= Seq::<StaticDataEntryModel>::empty());
    }
}

/// Every concrete path of one route pattern: its segments expanded against
/// the table accumulated along its ancestor chain.
pub open spec fn spec_resolve_route(
    pattern: Seq<char>,
    data: Seq<StaticDataEntryModel>,
) -> Seq<ConcretePathModel> {
    expand_segments(spec_parse_path(pattern), accumulate_params(pattern, data))
}

/// Resolve one route pattern against the collected producer outputs.
pub fn resolve_route(pattern: &str, data: &StaticDataMap) -> (out: Vec<ConcretePath>)
    ensures
        out@.map_values(|p: ConcretePath| p@) =~= spec_resolve_route(pattern@, data@),
{
    let segments = parse_static_path(pattern);
    let params = accumulate_route_params(pattern, data);
    expand_static_path(&segments, &params)
}

/// The concrete paths of all routes, in route order.
pub open spec fn spec_resolve_routes(
    routes: Seq<Seq<char>>,
    data: Seq<StaticDataEntryModel>,
) -> Seq<ConcretePathModel>
    decreases routes.len(),
{
    if routes.len() == 0 {
        Seq::empty()
    } else {
        spec_resolve_route(routes.first(), data) + spec_resolve_routes(routes.drop_first(), data)
    }
}

pub proof fn lemma_resolve_routes_snoc(
    routes: Seq<Seq<char>>,
    r: Seq<char>,
    data: Seq<StaticDataEntryModel>,
)
    ensures
        spec_resolve_routes(routes.push(r), data) =~= spec_resolve_routes(routes, data)
            + spec_resolve_route(r, data),
    decreases routes.len(),
{
    if routes.len() == 0 {
        reveal_with_fuel(spec_resolve_routes, 3);
        assert(routes.push(r).first() == r);
        assert(routes.push(r).drop_first() =~= Seq::<Seq<char>>::empty());
        assert(Seq::<ConcretePathModel>::empty() + spec_resolve_route(r, data)
            =~= spec_resolve_route(r, data));
        assert(spec_resolve_route(r, data) + Seq::<ConcretePathModel>::empty()
            =~= spec_resolve_route(r, data));
    } else {
        assert(routes.push(r).first() == routes.first());
        assert(routes.push(r).drop_first() =~= routes.drop_first().push(r));
        lemma_resolve_routes_snoc(routes.drop_first(), r, data);
    }
}

/// Resolve every route against the collected producer outputs: enumerate
/// the full set of concrete output paths, each with its bound parameter
/// context.
pub fn resolve_static_routes(routes: &Vec<String>, data: &StaticDataMap) -> (out: Vec<
    ConcretePath,
>)
    ensures
        out@.map_values(|p: ConcretePath| p@) =~= spec_resolve_routes(
            routes@.map_values(|r: String| r@),
            data@,
        ),
{
    let ghost routesm = routes@.map_values(|r: String| r@);
    let mut out: Vec<ConcretePath> = Vec::new();
    let mut i: usize = 0;
    while i < routes.len()
        invariant
            i <= routes@.len(),
            routesm == routes@.map_values(|r: String| r@),
            routesm.len() == routes@.len(),
            out@.map_values(|p: ConcretePath| p@) =~= spec_resolve_routes(
                routesm.take(i as int),
                data@,
            ),
        decreases routes@.len() - i,
    {
        let mut paths = resolve_route(routes[i].as_str(), data);
        let ghost before = out@.map_values(|p: ConcretePath| p@);
        let ghost pathsm = paths@.map_values(|p: ConcretePath| p@);
        out.append(&mut paths);
        proof {
            assert(out@.map_values(|p: ConcretePath| p@) =~= before + pathsm);
            lemma_resolve_routes_snoc(routesm.take(i as int), routesm[i as int], data@);
            assert(routesm.take(i as int).push(routesm[i as int]) =~= routesm.take(i + 1));
        }
        i = i + 1;
    }
    proof {
        assert(routesm.take(routes@.len() as int) =~= routesm);
    }
    out
}



/// The concatenation `/seg1/seg2/...` of a non-empty segment list, or the
/// empty sequence for none.
pub open spec fn spec_joined(segs: Seq<Seq<char>>) -> Seq<char>
    decreases segs.len(),
{
    if segs.len() == 0 {
        Seq::empty()
    } else {
        seq!['/'] + segs.first() + spec_joined(segs.drop_first())
    }
}

/// The printable form of a concrete path: `/seg1/seg2/...`, and `/` alone
/// for the root.
pub open spec fn spec_path_string(segs: Seq<Seq<char>>) -> Seq<char> {
    if segs.len() == 0 {
        seq!['/']
    } else {
        spec_joined(segs)
    }
}

pub proof fn lemma_joined_snoc(segs: Seq<Seq<char>>, x: Seq<char>)
    ensures
        spec_joined(segs.push(x)) =~= spec_joined(segs) + seq!['/'] + x,
    decreases segs.len(),
{
    if segs.len() == 0 {
        reveal_with_fuel(spec_joined, 3);
        assert(segs.push(x).first() == x);
        assert(segs.push(x).drop_first() =~= Seq::<Seq<char>>::empty());
    } else {
        assert(segs.push(x).first() == segs.first());
        assert(segs.push(x).drop_first() =~= segs.drop_first().push(x));
        lemma_joined_snoc(segs.drop_first(), x);
    }
}

/// The location under the output root where a concrete path is written: a
/// path whose final segment carries an explicit file extension maps to that
/// file, and any other path is written as an `index.html` document under
/// its directory.
pub open spec fn spec_output_rel_file(segs: Seq<Seq<char>>) -> Seq<char> {
    if segs.len() > 0 && last_index_of(segs.last(), '.') >= 0 {
        spec_joined(segs).drop_first()
    } else {
        spec_joined(segs.push(seq!['i', 'n', 'd', 'e', 'x', '.', 'h', 't', 'm', 'l'])).drop_first()
    }
}

impl ConcretePath {
    /// The printable form of this path: `/seg1/seg2/...`, or `/` for the
    /// root.
    pub fn path_string(&self) -> (r: String)
        ensures
            r@ =~= spec_path_string(self@.segments),
    {
        let ghost segsm = self@.segments;
        if self.segments.len() == 0 {
            let r = "/".to_owned();
            proof {
                reveal_strlit("/");
                assert(r@ =~= seq!['/']);
            }
            return r;
        }
        let mut out = String::new();
        let mut i: usize = 0;
        proof {
            assert(segsm.take(0) =~= Seq::<Seq<char>>::empty());
        }
        while i < self.segments.len()
            invariant
                i <= self.segments@.len(),
                segsm == self@.segments,
                segsm.len() == self.segments@.len(),
                out@ == spec_joined(segsm.take(i as int)),
            decreases self.segments@.len() - i,
        {
            out.append("/");
            out.append(self.segments[i].as_str());
            proof {
                reveal_strlit("/");
                lemma_joined_snoc(segsm.take(i as int), segsm[i as int]);
                assert(segsm.take(i as int).push(segsm[i as int]) =~= segsm.take(i + 1));
                assert(out@ =~= spec_joined(segsm.take(i + 1)));
            }
            i = i + 1;
        }
        proof {
            assert(segsm.take(segsm.len() as int) =~= segsm);
        }
        out
    }

    /// The relative location under the output root where this path's
    /// rendered page is persisted.
    pub fn output_file(&self) -> (r: String)
        ensures
            r@ =~= spec_output_rel_file(self@.segments),
    {
        let ghost segsm = self@.segments;
        let n = self.segments.len();
        let has_extension = if n > 0 {
            match find_last(self.segments[n - 1].as_str(), '.') {
                Some(_) => true,
                None => false,
            }
        } else {
            false
        };
        let mut out = String::new();
        let mut i: usize = 0;
        proof {
            assert(segsm.take(0) =~= Seq::<Seq<char>>::empty());
        }
        while i < self.segments.len()
            invariant
                i <= self.segments@.len(),
                segsm == self@.segments,
                segsm.len() == self.segments@.len(),
                out@ == spec_joined(segsm.take(i as int)),
            decreases self.segments@.len() - i,
        {
            out.append("/");
            out.append(self.segments[i].as_str());
            proof {
                reveal_strlit("/");
                lemma_joined_snoc(segsm.take(i as int), segsm[i as int]);
                assert(segsm.take(i as int).push(segsm[i as int]) =~= segsm.take(i + 1));
                assert(out@ =~= spec_joined(segsm.take(i + 1)));
            }
            i = i + 1;
        }
        proof {
            assert(segsm.take(segsm.len() as int) =~= segsm);
        }
        if !has_extension {
            out.append("/index.html");
            proof {
                reveal_strlit("/index.html");
                lemma_joined_snoc(segsm, seq!['i', 'n', 'd', 'e', 'x', '.', 'h', 't', 'm', 'l']);
                assert(out@ =~= spec_joined(
                    segsm.push(seq!['i', 'n', 'd', 'e', 'x', '.', 'h', 't', 'm', 'l']),
                ));
            }
        }
        let len = out.as_str().unicode_len();
        let r = out.as_str().substring_char(1, len).to_owned();
        proof {
            assert(r@ =~= out@.drop_first());
        }
        r
    }
}

/// The number of concrete paths a segment chain generates: the product of
/// the accumulated value-set cardinalities of its dynamic segments.
pub open spec fn path_count(segs: Seq<SegmentModel>, params: Seq<ParamEntryModel>) -> nat
    decreases segs.len(),
{
    if segs.len() == 0 {
        1
    } else {
        match segs.first() {
            SegmentModel::Literal(_) => path_count(segs.drop_first(), params),
            SegmentModel::Dynamic(n) => lookup_or_empty(params, n).len() * path_count(
                segs.drop_first(),
                params,
            ),
        }
    }
}

pub proof fn lemma_expand_values_len(
    name: Seq<char>,
    values: Seq<Seq<char>>,
    rest: Seq<ConcretePathModel>,
)
    ensures
        expand_values(name, values, rest).len() == values.len() * rest.len(),
    decreases values.len(),
{
    if values.len() == 0 {
        assert(0 * rest.len() == 0) by (nonlinear_arith);
    } else {
        lemma_expand_values_len(name, values.drop_first(), rest);
        assert(values.len() * rest.len() == rest.len() + (values.len() - 1) * rest.len())
            by (nonlinear_arith);
    }
}

/// Path-count law: a chain whose dynamic segments have accumulated value
/// sets of cardinalities c1...ck generates exactly c1 * ... * ck concrete
/// paths; a chain with no dynamic segments generates exactly one.
pub proof fn lemma_path_count(segs: Seq<SegmentModel>, params: Seq<ParamEntryModel>)
    ensures
        expand_segments(segs, params).len() == path_count(segs, params),
    decreases segs.len(),
{
    if segs.len() > 0 {
        lemma_path_count(segs.drop_first(), params);
        match segs.first() {
            SegmentModel::Literal(_) => {},
            SegmentModel::Dynamic(n) => {
                lemma_expand_values_len(
                    n,
                    lookup_or_empty(params, n),
                    expand_segments(segs.drop_first(), params),
                );
            },
        }
    }
}

/// Suppression: one dynamic segment with an empty accumulated value set
/// makes the whole chain generate zero concrete paths.
pub proof fn lemma_path_count_zero(segs: Seq<SegmentModel>, params: Seq<ParamEntryModel>, i: int)
    requires
        0 <= i < segs.len(),
        (segs[i] matches SegmentModel::Dynamic(n) && lookup_or_empty(params, n).len() == 0),
    ensures
        path_count(segs, params) == 0,
    decreases segs.len(),
{
    if i == 0 {
        assert(0 * path_count(segs.drop_first(), params) == 0) by (nonlinear_arith);
    } else {
        lemma_path_count_zero(segs.drop_first(), params, i - 1);
        match segs.first() {
            SegmentModel::Literal(_) => {},
            SegmentModel::Dynamic(n) => {
                assert(lookup_or_empty(params, n).len() * 0 == 0) by (nonlinear_arith);
            },
        }
    }
}

/// Idempotence: resolution is a function of the routes and the collected
/// producer outputs alone, so two builds against unchanged sources produce
/// the identical set of concrete paths and the identical set of output
/// file locations.
pub proof fn lemma_build_idempotent(
    routes: Seq<Seq<char>>,
    data: Seq<StaticDataEntryModel>,
    first_build: Seq<ConcretePathModel>,
    second_build: Seq<ConcretePathModel>,
)
    requires
        first_build == spec_resolve_routes(routes, data),
        second_build == spec_resolve_routes(routes, data),
    ensures
        first_build == second_build,
        first_build.map_values(|p: ConcretePathModel| spec_output_rel_file(p.segments))
            == second_build.map_values(|p: ConcretePathModel| spec_output_rel_file(p.segments)),
{
}



/// One route's producer registration: the route pattern, and the operation
/// producing the legal value sets of its own dynamic segments, if it owns
/// one.
pub struct RouteProducer<P> {
    /// The route pattern this producer belongs to.
    pub path: String,
    /// The producer operation, if the route owns dynamic segments.
    pub producer: Option<P>,
}

/// Run every registered producer against the store, in order, through the
/// operation runner — each execution reads one consistent snapshot and its
/// buffered edits are committed before the next producer runs — and record
/// each output under its route pattern. A route with no producer is
/// recorded with no bindings.
pub fn collect_static_data<P: Operation<Input = (), Output = StaticParamsMap>>(
    data: &mut Datalayer,
    producers: Vec<RouteProducer<P>>,
) -> (out: StaticDataMap)
    requires
        forall|i: int, s: StoreModel|
            0 <= i < producers@.len() && producers@[i].producer is Some
                ==> #[trigger] producers@[i].producer->Some_0.pre(s, ()),
    ensures
        out@.len() == producers@.len(),
        forall|i: int| 0 <= i < producers@.len() ==> out@[i].path == producers@[i].path@,
        forall|i: int|
            0 <= i < producers@.len() && producers@[i].producer is None ==> out@[i].params
                == Seq::<ParamEntryModel>::empty(),
        forall|i: int|
            0 <= i < producers@.len() && producers@[i].producer is Some
                ==> exists|snapshot: StoreModel, pm: StaticParamsMap, cmds: Seq<CommandModel>|
                pm@ == out@[i].params && #[trigger] producers@[i].producer->Some_0.post(
                    snapshot,
                    (),
                    pm,
                    cmds,
                ),
        exists|batches: Seq<Seq<CommandModel>>|
            final(data)@ == apply_batches(old(data)@, batches),
{
    let ghost all = producers@;
    let n = producers.len();
    let ghost store0 = data@;
    let ghost batches: Seq<Seq<CommandModel>> = Seq::empty();
    let mut batches = Ghost(batches);
    let mut producers = producers;
    let mut out = StaticDataMap::new();
    let mut i: usize = 0;
    while producers.len() > 0
        invariant
            i + producers@.len() == n,
            all.len() == n,
            n <= usize::MAX,
            forall|j: int| 0 <= j < producers@.len() ==> producers@[j] == all[i + j],
            forall|j: int, s: StoreModel|
                0 <= j < n && all[j].producer is Some ==> #[trigger] all[j].producer->Some_0.pre(
                    s,
                    (),
                ),
            out@.len() == i,
            forall|j: int| 0 <= j < i ==> out@[j].path == all[j].path@,
            forall|j: int|
                0 <= j < i && all[j].producer is None ==> out@[j].params
                    == Seq::<ParamEntryModel>::empty(),
            forall|j: int|
                0 <= j < i && all[j].producer is Some
                    ==> exists|snapshot: StoreModel, pm: StaticParamsMap, cmds: Seq<CommandModel>|
                    pm@ == out@[j].params && #[trigger] all[j].producer->Some_0.post(
                        snapshot,
                        (),
                        pm,
                        cmds,
                    ),
            data@ == apply_batches(store0, batches@),
        decreases producers@.len(),
    {
        let route_producer = producers.remove(0);
        let params = match route_producer.producer {
            Some(op) => {
                let ghost before = data@;
                let params = data.run(&op, ());
                proof {
                    let cmds = choose|cmds: Seq<CommandModel>|
                        op.post(before, (), params, cmds) && data@ == apply_commands(
                            before,
                            cmds,
                        );
                    lemma_apply_batches_snoc(store0, batches@, cmds);
                    batches@ = batches@.push(cmds);
                    assert(all[i as int].producer->Some_0.post(before, (), params, cmds));
                }
                params
            },
            None => StaticParamsMap::new(),
        };
        let ghost params_at_entry = params@;
        out.insert(route_producer.path, params);
        proof {
            if all[i as int].producer is Some {
                let op = all[i as int].producer->Some_0;
                assert(exists|snapshot: StoreModel, pm: StaticParamsMap, cmds: Seq<CommandModel>|
                    pm@ == params_at_entry && #[trigger] op.post(snapshot, (), pm, cmds));
            }
        }
        i = i + 1;
    }
    proof {
        assert(data@ == apply_batches(store0, batches@));
    }
    out
}

/// Build the complete set of concrete output paths: run every route's
/// producer through the operation runner, then resolve each route against
/// the collected outputs, inheriting every ancestor's bindings.
pub fn build_static_routes_with_world<P: Operation<Input = (), Output = StaticParamsMap>>(
    data: &mut Datalayer,
    routes: &Vec<String>,
    producers: Vec<RouteProducer<P>>,
) -> (out: Vec<ConcretePath>)
    requires
        forall|i: int, s: StoreModel|
            0 <= i < producers@.len() && producers@[i].producer is Some
                ==> #[trigger] producers@[i].producer->Some_0.pre(s, ()),
    ensures
        exists|sd: Seq<StaticDataEntryModel>|
            {
                &&& sd.len() == producers@.len()
                &&& (forall|i: int| 0 <= i < sd.len() ==> sd[i].path == producers@[i].path@)
                &&& (forall|i: int|
                    0 <= i < sd.len() && producers@[i].producer is None ==> sd[i].params
                        == Seq::<ParamEntryModel>::empty())
                &&& (forall|i: int|
                    0 <= i < sd.len() && producers@[i].producer is Some ==> exists|
                        snapshot: StoreModel,
                        pm: StaticParamsMap,
                        cmds: Seq<CommandModel>,
                    |
                        pm@ == sd[i].params && #[trigger] producers@[i].producer->Some_0.post(
                            snapshot,
                            (),
                            pm,
                            cmds,
                        ))
                &&& out@.map_values(|p: ConcretePath| p@) == spec_resolve_routes(
                    routes@.map_values(|r: String| r@),
                    sd,
                )
            },
        exists|batches: Seq<Seq<CommandModel>>|
            final(data)@ == apply_batches(old(data)@, batches),
{
    let static_data = collect_static_data(data, producers);
    let out = resolve_static_routes(routes, &static_data);
    proof {
        let sd = static_data@;
        assert({
            &&& sd.len() == producers@.len()
            &&& (forall|i: int| 0 <= i < sd.len() ==> sd[i].path == producers@[i].path@)
            &&& (forall|i: int|
                0 <= i < sd.len() && producers@[i].producer is None ==> sd[i].params
                    == Seq::<ParamEntryModel>::empty())
            &&& (forall|i: int|
                0 <= i < sd.len() && producers@[i].producer is Some ==> exists|
                    snapshot: StoreModel,
                    pm: StaticParamsMap,
                    cmds: Seq<CommandModel>,
                |
                    pm@ == sd[i].params && #[trigger] producers@[i].producer->Some_0.post(
                        snapshot,
                        (),
                        pm,
                        cmds,
                    ))
            &&& out@.map_values(|p: ConcretePath| p@) == spec_resolve_routes(
                routes@.map_values(|r: String| r@),
                sd,
            )
        });
    }
    out
}


/// What to do when two concrete paths collapse to the same output file.
#[derive(Clone, Copy, PartialEq, Eq, Structural, Debug)]
pub enum CollisionPolicy {
    /// The path enumerated last wins: its page is the one persisted.
    LastWins,
    /// The path enumerated first wins; later colliding paths are dropped.
    FirstWins,
}

/// Whether a write fault aborts the remaining writes or is collected while
/// the siblings continue.
#[derive(Clone, Copy, PartialEq, Eq, Structural, Debug)]
pub enum WriteFaultPolicy {
    /// The first fault aborts the whole write phase.
    AbortOnFirstFault,
    /// Faults are collected and the remaining paths are still written.
    ContinueOnFault,
}

impl WriteFaultPolicy {
    /// Whether the write phase goes on after one output failed.
    pub fn continues_after_fault(&self) -> (r: bool)
        ensures
            r == (*self is ContinueOnFault),
    {
        match self {
            WriteFaultPolicy::AbortOnFirstFault => false,
            WriteFaultPolicy::ContinueOnFault => true,
        }
    }
}

/// The output file a concrete path is written to.
pub open spec fn spec_output_key(p: ConcretePathModel) -> Seq<char> {
    spec_output_rel_file(p.segments)
}

/// The position of the first plan entry written to `key`, or -1.
pub open spec fn plan_index_of(plan: Seq<ConcretePathModel>, key: Seq<char>) -> int
    decreases plan.len(),
{
    if plan.len() == 0 {
        -1
    } else if spec_output_key(plan.first()) == key {
        0
    } else {
        let rest = plan_index_of(plan.drop_first(), key);
        if rest < 0 {
            -1
        } else {
            rest + 1
        }
    }
}

/// Add one path to the write plan: a colliding entry is replaced or kept
/// according to the policy, a fresh output file is appended.
pub open spec fn plan_insert(
    plan: Seq<ConcretePathModel>,
    p: ConcretePathModel,
    policy: CollisionPolicy,
) -> Seq<ConcretePathModel> {
    let i = plan_index_of(plan, spec_output_key(p));
    if i >= 0 {
        match policy {
            CollisionPolicy::LastWins => plan.update(i, p),
            CollisionPolicy::FirstWins => plan,
        }
    } else {
        plan.push(p)
    }
}

/// The write plan for a sequence of concrete paths: one entry per distinct
/// output file, in order of first appearance, collisions resolved by the
/// policy.
pub open spec fn plan_from(
    acc: Seq<ConcretePathModel>,
    paths: Seq<ConcretePathModel>,
    policy: CollisionPolicy,
) -> Seq<ConcretePathModel>
    decreases paths.len(),
{
    if paths.len() == 0 {
        acc
    } else {
        plan_from(plan_insert(acc, paths.first(), policy), paths.drop_first(), policy)
    }
}

/// See [`plan_from`]: the plan built from an empty accumulator.
pub open spec fn spec_write_plan(
    paths: Seq<ConcretePathModel>,
    policy: CollisionPolicy,
) -> Seq<ConcretePathModel> {
    plan_from(Seq::empty(), paths, policy)
}

/// No two entries of a plan name the same output file.
pub open spec fn plan_keys_distinct(plan: Seq<ConcretePathModel>) -> bool {
    forall|i: int, j: int|
        0 <= i < j < plan.len() ==> spec_output_key(#[trigger] plan[i]) != spec_output_key(
            #[trigger] plan[j],
        )
}

proof fn lemma_plan_index_of_bounds(plan: Seq<ConcretePathModel>, key: Seq<char>)
    ensures
        -1 <= plan_index_of(plan, key) < plan.len(),
        plan_index_of(plan, key) >= 0 ==> spec_output_key(plan[plan_index_of(plan, key)]) == key,
        plan_index_of(plan, key) >= 0 ==> forall|j: int|
            0 <= j < plan_index_of(plan, key) ==> spec_output_key(#[trigger] plan[j]) != key,
        plan_index_of(plan, key) == -1 ==> forall|j: int|
            0 <= j < plan.len() ==> spec_output_key(#[trigger] plan[j]) != key,
    decreases plan.len(),
{
    if plan.len() > 0 && spec_output_key(plan.first()) != key {
        lemma_plan_index_of_bounds(plan.drop_first(), key);
        assert(forall|j: int| 1 <= j < plan.len() ==> plan[j] == plan.drop_first()[j - 1]);
    }
}

proof fn lemma_plan_insert_distinct(
    plan: Seq<ConcretePathModel>,
    p: ConcretePathModel,
    policy: CollisionPolicy,
)
    requires
        plan_keys_distinct(plan),
    ensures
        plan_keys_distinct(plan_insert(plan, p, policy)),
{
    lemma_plan_index_of_bounds(plan, spec_output_key(p));
}

/// Collision law: whatever the policy, the write plan never writes one
/// output file twice.
pub proof fn lemma_write_plan_distinct(paths: Seq<ConcretePathModel>, policy: CollisionPolicy)
    ensures
        plan_keys_distinct(spec_write_plan(paths, policy)),
{
    lemma_plan_from_distinct(Seq::empty(), paths, policy);
}

proof fn lemma_plan_from_distinct(
    acc: Seq<ConcretePathModel>,
    paths: Seq<ConcretePathModel>,
    policy: CollisionPolicy,
)
    requires
        plan_keys_distinct(acc),
    ensures
        plan_keys_distinct(plan_from(acc, paths, policy)),
    decreases paths.len(),
{
    if paths.len() > 0 {
        lemma_plan_insert_distinct(acc, paths.first(), policy);
        lemma_plan_from_distinct(plan_insert(acc, paths.first(), policy), paths.drop_first(), policy);
    }
}

/// An exact copy of a concrete path.
fn clone_path(p: &ConcretePath) -> (r: ConcretePath)
    ensures
        r@ =~= p@,
{
    ConcretePath { segments: clone_strings(&p.segments), bindings: clone_bindings(&p.bindings) }
}

/// Resolve duplicate output files among the concrete paths: one entry per
/// distinct output file, in order of first appearance, the colliding entry
/// chosen by the policy.
pub fn write_plan(paths: &Vec<ConcretePath>, policy: CollisionPolicy) -> (plan: Vec<ConcretePath>)
    ensures
        plan@.map_values(|p: ConcretePath| p@) =~= spec_write_plan(
            paths@.map_values(|p: ConcretePath| p@),
            policy,
        ),
{
    let ghost pathsm = paths@.map_values(|p: ConcretePath| p@);
    let mut plan: Vec<ConcretePath> = Vec::new();
    let mut keys: Vec<String> = Vec::new();
    let mut i: usize = 0;
    proof {
        assert(pathsm.skip(0) =~= pathsm);
        assert(plan@.map_values(|p: ConcretePath| p@) =~= Seq::<ConcretePathModel>::empty());
    }
    while i < paths.len()
        invariant
            i <= paths@.len(),
            pathsm == paths@.map_values(|p: ConcretePath| p@),
            pathsm.len() == paths@.len(),
            keys@.len() == plan@.len(),
            forall|k: int| 0 <= k < plan@.len() ==> keys@[k]@ == spec_output_key(
                #[trigger] plan@[k]@,
            ),
            spec_write_plan(pathsm, policy) == plan_from(
                plan@.map_values(|p: ConcretePath| p@),
                pathsm.skip(i as int),
                policy,
            ),
        decreases paths@.len() - i,
    {
        let p = &paths[i];
        let key = p.output_file();
        let ghost planm = plan@.map_values(|q: ConcretePath| q@);
        proof {
            assert(pathsm.skip(i as int).first() == pathsm[i as int]);
            assert(pathsm.skip(i as int).drop_first() =~= pathsm.skip(i + 1));
            lemma_plan_index_of_bounds(planm, spec_output_key(pathsm[i as int]));
        }
        let n = plan.len();
        let mut j: usize = 0;
        let mut found = false;
        while j < n
            invariant_except_break
                !found,
            invariant
                j <= n,
                n == plan@.len(),
                n == keys@.len(),
                i < pathsm.len(),
                key@ == spec_output_key(p@),
                p@ == pathsm[i as int],
                forall|k: int| 0 <= k < plan@.len() ==> keys@[k]@ == spec_output_key(
                    #[trigger] plan@[k]@,
                ),
                forall|k: int| 0 <= k < j ==> spec_output_key(#[trigger] plan@[k]@) != key@,
            ensures
                n == plan@.len(),
                j <= n,
                found ==> j < n && spec_output_key(plan@[j as int]@) == key@,
                forall|k: int| 0 <= k < j ==> spec_output_key(#[trigger] plan@[k]@) != key@,
                !found ==> j == n,
            decreases n - j,
        {
            if string_equal(&keys[j], key.as_str()) {
                found = true;
                break ;
            }
            j = j + 1;
        }
        if found {
            proof {
                lemma_plan_index_of_bounds(planm, key@);
                assert(planm[j as int] == plan@[j as int]@);
                assert(spec_output_key(planm[j as int]) == key@);
                let idx = plan_index_of(planm, key@);
                if idx == -1 {
                    assert(spec_output_key(planm[j as int]) != key@);
                } else if idx < j {
                    assert(planm[idx] == plan@[idx]@);
                    assert(spec_output_key(plan@[idx]@) != key@);
                } else if idx > j {
                    assert(spec_output_key(planm[j as int]) != key@);
                }
                assert(plan_index_of(planm, spec_output_key(pathsm[i as int])) == j);
            }
            match policy {
                CollisionPolicy::LastWins => {
                    let replacement = clone_path(p);
                    plan.set(j, replacement);
                    keys.set(j, key);
                    proof {
                        assert(plan@.map_values(|q: ConcretePath| q@) =~= planm.update(
                            j as int,
                            pathsm[i as int],
                        ));
                    }
                },
                CollisionPolicy::FirstWins => {},
            }
        } else {
            proof {
                lemma_plan_index_of_bounds(planm, key@);
                assert(plan_index_of(planm, spec_output_key(pathsm[i as int])) == -1);
            }
            plan.push(clone_path(p));
            keys.push(key);
            proof {
                assert(plan@.map_values(|q: ConcretePath| q@) =~= planm.push(pathsm[i as int]));
            }
        }
        i = i + 1;
    }
    proof {
        assert(pathsm.skip(pathsm.len() as int) =~= Seq::<ConcretePathModel>::empty());
    }
    plan
}

} // verus!
