//! API-equivalent cost of the turns in the local Codex session logs.
//!
//! Each `task_complete` turn is classified by model and priced with the
//! frozen price book of `pricing`; turns are grouped per raw model id (in
//! ascending id order, as a sorted map holds them) and the groups are then
//! ordered by cost, largest first, ties by tokens. Amounts are summed
//! exactly in nano-dollars and turned into `Decimal` dollars at the end.

use vstd::prelude::*;
use rust_decimal::Decimal;
use crate::paths::Paths;
use crate::pricing::{
    LONG_CONTEXT_THRESHOLD, Model, PRICING_VERSION, decimal_mantissa_max, decimal_scaled,
    spec_classify, spec_model_name, spec_turn_cost_nanos, turn_cost_nanos, usd_from_nanos,
};
use crate::session::{SessionTurn, TokenUsage, TurnView, turn_view, turn_views};
use crate::text::{chars_eq, chars_lt, chars_of, lemma_lex_lt_order, lex_lt};
use crate::time::{Timestamp, ts_lt};

verus! {

/// The long-context threshold of the price book, for callers of this module.
pub const LC_THRESHOLD: i64 = LONG_CONTEXT_THRESHOLD;

/// Prices the turns of the session logs under a `Paths` layout.
pub struct CostEngine<'a> {
    /// The layout whose session logs are read.
    pub paths: &'a Paths,
    /// Earliest event to count toward the window. Defaults to "all time".
    pub window_start: Option<Timestamp>,
}

impl<'a> CostEngine<'a> {
    pub fn new(paths: &'a Paths) -> (r: Self)
        ensures
            r.paths == paths,
            r.window_start is None,
    {
        Self { paths, window_start: None }
    }

    /// The same engine, counting only events at or after `t`.
    pub fn since(self, t: Timestamp) -> (r: Self)
        ensures
            r.paths == self.paths,
            r.window_start == Some(t),
    {
        let mut e = self;
        e.window_start = Some(t);
        e
    }
}

/// The raw model id a turn is grouped under: its model, or `<unknown>`.
pub open spec fn raw_model_of(t: TurnView) -> Seq<char> {
    match t.model {
        Some(m) => m,
        None => "<unknown>"@,
    }
}

/// The token counts of a turn.
pub open spec fn usage_of_view(t: TurnView) -> TokenUsage {
    TokenUsage {
        input_tokens: t.input_tokens,
        cached_input_tokens: t.cached_input_tokens,
        output_tokens: t.output_tokens,
    }
}

/// The cost of a turn in nano-dollars, `None` when its model has no price.
pub open spec fn turn_cost(t: TurnView) -> Option<nat> {
    spec_turn_cost_nanos(spec_classify(raw_model_of(t)), usage_of_view(t))
}

pub open spec fn cost_or_zero(c: Option<nat>) -> nat {
    match c {
        Some(n) => n,
        None => 0,
    }
}

/// The costs of turns in nano-dollars, unpriced turns counting zero.
pub open spec fn total_cost(ts: Seq<TurnView>) -> nat
    decreases ts.len(),
{
    if ts.len() == 0 {
        0
    } else {
        total_cost(ts.drop_last()) + cost_or_zero(turn_cost(ts.last()))
    }
}

/// The running totals of one raw model id.
pub ghost struct AccumView {
    pub raw: Seq<char>,
    pub classified: Model,
    pub turns: nat,
    pub input_tokens: i64,
    pub cached_input_tokens: i64,
    pub output_tokens: i64,
    pub total_tokens: i64,
    pub nanos: nat,
    pub priced: bool,
}

/// The empty totals of a raw model id.
pub open spec fn empty_accum(raw: Seq<char>) -> AccumView {
    AccumView {
        raw,
        classified: spec_classify(raw),
        turns: 0,
        input_tokens: 0,
        cached_input_tokens: 0,
        output_tokens: 0,
        total_tokens: 0,
        nanos: 0,
        priced: false,
    }
}

/// Totals grown by one turn: token sums wrap in `i64`; the cost adds to
/// the amount and marks the totals priced when the model has a price.
pub open spec fn grow_accum(e: AccumView, t: TurnView) -> AccumView {
    let c = turn_cost(t);
    AccumView {
        turns: e.turns + 1,
        input_tokens: e.input_tokens.wrapping_add(t.input_tokens),
        cached_input_tokens: e.cached_input_tokens.wrapping_add(t.cached_input_tokens),
        output_tokens: e.output_tokens.wrapping_add(t.output_tokens),
        total_tokens: e.total_tokens.wrapping_add(
            t.input_tokens.wrapping_add(t.cached_input_tokens).wrapping_add(t.output_tokens),
        ),
        nanos: e.nanos + cost_or_zero(c),
        priced: e.priced || c is Some,
        ..e
    }
}

/// Index of the totals of `raw`, or -1.
pub open spec fn find_key(s: Seq<AccumView>, raw: Seq<char>) -> int
    decreases s.len(),
{
    if s.len() == 0 {
        -1
    } else if s[0].raw == raw {
        0
    } else {
        let r = find_key(s.drop_first(), raw);
        if r < 0 { -1 } else { r + 1 }
    }
}

/// Inserts totals before the first entry whose id sorts after theirs.
pub open spec fn insert_sorted(s: Seq<AccumView>, x: AccumView) -> Seq<AccumView>
    decreases s.len(),
{
    if s.len() == 0 {
        seq![x]
    } else if lex_lt(x.raw, s[0].raw) {
        seq![x] + s
    } else {
        seq![s[0]] + insert_sorted(s.drop_first(), x)
    }
}

/// A turn counted into the per-id totals: the totals of its raw id grow,
/// or new totals for it are inserted in id order.
pub open spec fn spec_accum_turn(s: Seq<AccumView>, t: TurnView) -> Seq<AccumView> {
    let raw = raw_model_of(t);
    let i = find_key(s, raw);
    if i >= 0 {
        s.update(i, grow_accum(s[i], t))
    } else {
        insert_sorted(s, grow_accum(empty_accum(raw), t))
    }
}

/// Everything the cost engine keeps while it reads turns.
pub ghost struct CostFold {
    pub accs: Seq<AccumView>,
    pub turns_priced: nat,
    pub turns_unknown: nat,
    pub uncached: i64,
    pub cached: i64,
    pub output: i64,
    pub nanos: nat,
    pub start: Option<Timestamp>,
    pub end: Option<Timestamp>,
}

/// The earlier of a running minimum and a timestamp.
pub open spec fn earliest(prev: Option<Timestamp>, t: Timestamp) -> Timestamp {
    match prev {
        Some(p) => if ts_lt(p, t) { p } else { t },
        None => t,
    }
}

/// The later of a running maximum and a timestamp.
pub open spec fn latest(prev: Option<Timestamp>, t: Timestamp) -> Timestamp {
    match prev {
        Some(p) => if ts_lt(t, p) { p } else { t },
        None => t,
    }
}

/// One turn read by the cost engine.
pub open spec fn spec_cost_step(f: CostFold, t: TurnView) -> CostFold {
    let c = turn_cost(t);
    CostFold {
        accs: spec_accum_turn(f.accs, t),
        turns_priced: if c is Some { f.turns_priced + 1 } else { f.turns_priced },
        turns_unknown: if c is Some { f.turns_unknown } else { f.turns_unknown + 1 },
        uncached: f.uncached.wrapping_add(t.input_tokens),
        cached: f.cached.wrapping_add(t.cached_input_tokens),
        output: f.output.wrapping_add(t.output_tokens),
        nanos: f.nanos + cost_or_zero(c),
        start: Some(earliest(f.start, t.timestamp)),
        end: Some(latest(f.end, t.timestamp)),
    }
}

/// Turns read in order.
pub open spec fn spec_cost_fold(ts: Seq<TurnView>) -> CostFold
    decreases ts.len(),
{
    if ts.len() == 0 {
        CostFold {
            accs: Seq::empty(),
            turns_priced: 0,
            turns_unknown: 0,
            uncached: 0,
            cached: 0,
            output: 0,
            nanos: 0,
            start: None,
            end: None,
        }
    } else {
        spec_cost_step(spec_cost_fold(ts.drop_last()), ts.last())
    }
}

/// Running totals of one raw model id.
struct ModelAccum {
    raw_model: String,
    classified: Model,
    turns: usize,
    input_tokens: i64,
    cached_input_tokens: i64,
    output_tokens: i64,
    total_tokens: i64,
    nanos: u128,
    priced: bool,
}

spec fn accum_view(a: ModelAccum) -> AccumView {
    AccumView {
        raw: a.raw_model@,
        classified: a.classified,
        turns: a.turns as nat,
        input_tokens: a.input_tokens,
        cached_input_tokens: a.cached_input_tokens,
        output_tokens: a.output_tokens,
        total_tokens: a.total_tokens,
        nanos: a.nanos as nat,
        priced: a.priced,
    }
}

spec fn accum_views(s: Seq<ModelAccum>) -> Seq<AccumView> {
    s.map_values(|a: ModelAccum| accum_view(a))
}

proof fn lemma_find_key(s: Seq<AccumView>, raw: Seq<char>, j: int)
    requires
        0 <= j <= s.len(),
        forall|k: int| 0 <= k < j ==> s[k].raw != raw,
        j < s.len() ==> s[j].raw == raw,
    ensures
        find_key(s, raw) == (if j < s.len() { j } else { -1 }),
    decreases j,
{
    if j > 0 {
        lemma_find_key(s.drop_first(), raw, j - 1);
    }
}

proof fn lemma_insert_sorted(s: Seq<AccumView>, x: AccumView, p: int)
    requires
        0 <= p <= s.len(),
        forall|k: int| 0 <= k < p ==> !lex_lt(x.raw, #[trigger] s[k].raw),
        p < s.len() ==> lex_lt(x.raw, s[p].raw),
    ensures
        insert_sorted(s, x) == s.take(p) + seq![x] + s.skip(p),
    decreases p,
{
    if p == 0 {
        if s.len() == 0 {
            assert(s.take(0) + seq![x] + s.skip(0) =~= seq![x]);
        } else {
            assert(s.take(0) + seq![x] + s.skip(0) =~= seq![x] + s);
        }
    } else {
        lemma_insert_sorted(s.drop_first(), x, p - 1);
        assert(s.take(p) + seq![x] + s.skip(p) =~= seq![s[0]] + (s.drop_first().take(p - 1)
            + seq![x] + s.drop_first().skip(p - 1)));
    }
}

/// The raw model id of a turn.
fn raw_model(t: &SessionTurn) -> (r: String)
    ensures
        r@ == raw_model_of(turn_view(*t)),
{
    proof {
        reveal_strlit("<unknown>");
    }
    match &t.model {
        Some(m) => m.clone(),
        None => "<unknown>".to_owned(),
    }
}

/// The cost of a turn in nano-dollars; `None` when its model has no price.
fn cost_of_turn(t: &SessionTurn) -> (r: Option<u128>)
    ensures
        r matches Some(n) ==> turn_cost(turn_view(*t)) == Some(n as nat),
        r is None <==> turn_cost(turn_view(*t)) is None,
{
    let raw = raw_model(t);
    let model = Model::classify(raw.as_str());
    let usage = TokenUsage::of_turn(t);
    turn_cost_nanos(model, &usage)
}

/// Grows totals by one turn whose cost is `c`.
fn grow(e: &mut ModelAccum, t: &SessionTurn, c: Option<u128>)
    requires
        c matches Some(n) ==> turn_cost(turn_view(*t)) == Some(n as nat),
        c is None <==> turn_cost(turn_view(*t)) is None,
        old(e).turns < usize::MAX,
        old(e).nanos + cost_or_zero(turn_cost(turn_view(*t))) <= decimal_mantissa_max(),
    ensures
        accum_view(*final(e)) == grow_accum(accum_view(*old(e)), turn_view(*t)),
{
    e.turns = e.turns + 1;
    e.input_tokens = e.input_tokens.wrapping_add(t.input_tokens);
    e.cached_input_tokens = e.cached_input_tokens.wrapping_add(t.cached_input_tokens);
    e.output_tokens = e.output_tokens.wrapping_add(t.output_tokens);
    e.total_tokens = e.total_tokens.wrapping_add(
        t.input_tokens.wrapping_add(t.cached_input_tokens).wrapping_add(t.output_tokens),
    );
    match c {
        Some(n) => {
            e.nanos = e.nanos + n;
            e.priced = true;
        },
        None => {},
    }
}

/// Whether the id `rc` sorts before the id of `a`.
fn sorts_before(rc: &Vec<char>, a: &ModelAccum) -> (r: bool)
    ensures
        r == lex_lt(rc@, a.raw_model@),
{
    let key = chars_of(a.raw_model.as_str());
    chars_lt(rc, &key)
}

/// Counts one turn, whose cost is `c`, into the per-id totals; see
/// `spec_accum_turn`.
fn accum_turn(accs: &mut Vec<ModelAccum>, t: &SessionTurn, c: Option<u128>, Ghost(nb): Ghost<nat>, Ghost(tb): Ghost<nat>)
    requires
        c matches Some(n) ==> turn_cost(turn_view(*t)) == Some(n as nat),
        c is None <==> turn_cost(turn_view(*t)) is None,
        forall|k: int| 0 <= k < old(accs)@.len() ==> (#[trigger] old(accs)@[k]).nanos <= nb && old(accs)@[k].turns <= tb,
        nb + cost_or_zero(turn_cost(turn_view(*t))) <= decimal_mantissa_max(),
        tb < usize::MAX,
    ensures
        accum_views(final(accs)@) == spec_accum_turn(accum_views(old(accs)@), turn_view(*t)),
        forall|k: int| 0 <= k < final(accs)@.len() ==> (#[trigger] final(accs)@[k]).nanos <= nb + cost_or_zero(turn_cost(turn_view(*t)))
            && final(accs)@[k].turns <= tb + 1,
{
    let raw = raw_model(t);
    let rc = chars_of(raw.as_str());
    let ghost tv = turn_view(*t);
    let ghost cz = cost_or_zero(turn_cost(tv));
    let mut i: usize = 0;
    while i < accs.len()
        invariant
            i <= accs.len(),
            rc@ == raw@,
            raw@ == raw_model_of(tv),
            accs@ == old(accs)@,
            tv == turn_view(*t),
            cz == cost_or_zero(turn_cost(tv)),
            c matches Some(n) ==> turn_cost(tv) == Some(n as nat),
            c is None <==> turn_cost(tv) is None,
            forall|k: int| 0 <= k < old(accs)@.len() ==> (#[trigger] old(accs)@[k]).nanos <= nb && old(accs)@[k].turns <= tb,
            nb + cz <= decimal_mantissa_max(),
            tb < usize::MAX,
            forall|k: int| 0 <= k < i ==> accum_views(accs@)[k].raw != raw@,
        decreases accs.len() - i,
    {
        let key = chars_of(accs[i].raw_model.as_str());
        if chars_eq(&key, &rc) {
            proof { lemma_find_key(accum_views(accs@), raw@, i as int); }
            let ghost before = accs@;
            let mut e = accs.remove(i);
            grow(&mut e, t, c);
            accs.insert(i, e);
            assert(accs@ =~= before.update(i as int, e));
            assert(accum_views(accs@) =~= accum_views(before).update(i as int, accum_view(e)));
            assert forall|k: int| 0 <= k < accs@.len() implies (#[trigger] accs@[k]).nanos <= nb + cz
                && accs@[k].turns <= tb + 1 by {
                if k != i {
                    assert(accs@[k] == before[k]);
                }
            }
            return;
        }
        i = i + 1;
    }
    proof { lemma_find_key(accum_views(accs@), raw@, i as int); }
    let mut p: usize = 0;
    while p < accs.len() && !sorts_before(&rc, &accs[p])
        invariant
            p <= accs.len(),
            rc@ == raw@,
            accs@ == old(accs)@,
            forall|k: int| 0 <= k < p ==> !lex_lt(raw@, #[trigger] accum_views(accs@)[k].raw),
        decreases accs.len() - p,
    {
        p = p + 1;
    }
    let classified = Model::classify(raw.as_str());
    let mut e = ModelAccum {
        raw_model: raw,
        classified,
        turns: 0,
        input_tokens: 0,
        cached_input_tokens: 0,
        output_tokens: 0,
        total_tokens: 0,
        nanos: 0,
        priced: false,
    };
    assert(accum_view(e) == empty_accum(raw_model_of(tv)));
    grow(&mut e, t, c);
    let ghost before = accs@;
    proof {
        lemma_insert_sorted(accum_views(before), accum_view(e), p as int);
    }
    accs.insert(p as usize, e);
    assert(accum_views(accs@) =~= accum_views(before).take(p as int) + seq![accum_view(e)] + accum_views(before).skip(p as int));
    assert forall|k: int| 0 <= k < accs@.len() implies (#[trigger] accs@[k]).nanos <= nb + cz
        && accs@[k].turns <= tb + 1 by {
        if k < p {
            assert(accs@[k] == before[k]);
        } else if k > p {
            assert(accs@[k] == before[k - 1]);
        }
    }
}

/// The exec state of the cost engine while it reads turns.
struct CostState {
    accs: Vec<ModelAccum>,
    turns_priced: usize,
    turns_unknown: usize,
    uncached: i64,
    cached: i64,
    output: i64,
    nanos: u128,
    start: Option<Timestamp>,
    end: Option<Timestamp>,
}

spec fn state_view(st: CostState) -> CostFold {
    CostFold {
        accs: accum_views(st.accs@),
        turns_priced: st.turns_priced as nat,
        turns_unknown: st.turns_unknown as nat,
        uncached: st.uncached,
        cached: st.cached,
        output: st.output,
        nanos: st.nanos as nat,
        start: st.start,
        end: st.end,
    }
}

proof fn lemma_total_cost_prefix(ts: Seq<TurnView>, k: int)
    requires
        0 <= k <= ts.len(),
    ensures
        total_cost(ts.take(k)) <= total_cost(ts),
    decreases ts.len() - k,
{
    if k < ts.len() {
        lemma_total_cost_prefix(ts, k + 1);
        assert(ts.take(k + 1).drop_last() =~= ts.take(k));
    } else {
        assert(ts.take(k) =~= ts);
    }
}

proof fn lemma_fold_nanos(ts: Seq<TurnView>)
    ensures
        spec_cost_fold(ts).nanos == total_cost(ts),
    decreases ts.len(),
{
    if ts.len() > 0 {
        lemma_fold_nanos(ts.drop_last());
    }
}

/// Reads the turns in order; see `spec_cost_fold`.
fn fold_turns(turns: &Vec<SessionTurn>) -> (r: CostState)
    requires
        total_cost(turn_views(turns@)) <= decimal_mantissa_max(),
    ensures
        state_view(r) == spec_cost_fold(turn_views(turns@)),
        r.nanos <= decimal_mantissa_max(),
        forall|k: int| 0 <= k < r.accs@.len() ==> (#[trigger] r.accs@[k]).nanos <= r.nanos,
{
    let ghost tvs = turn_views(turns@);
    let mut st = CostState {
        accs: Vec::new(),
        turns_priced: 0,
        turns_unknown: 0,
        uncached: 0,
        cached: 0,
        output: 0,
        nanos: 0,
        start: None,
        end: None,
    };
    assert(accum_views(st.accs@) =~= Seq::<AccumView>::empty());
    assert(tvs.take(0) =~= Seq::<TurnView>::empty());
    let mut i: usize = 0;
    while i < turns.len()
        invariant
            i <= turns.len(),
            tvs == turn_views(turns@),
            total_cost(tvs) <= decimal_mantissa_max(),
            state_view(st) == spec_cost_fold(tvs.take(i as int)),
            st.nanos == total_cost(tvs.take(i as int)),
            st.turns_priced + st.turns_unknown == i,
            forall|k: int| 0 <= k < st.accs@.len() ==> (#[trigger] st.accs@[k]).nanos <= st.nanos && st.accs@[k].turns <= i,
        decreases turns.len() - i,
    {
        let t = &turns[i];
        let ghost tv = turn_view(*t);
        assert(tvs.take(i + 1).drop_last() =~= tvs.take(i as int));
        assert(tvs.take(i + 1).last() == tv);
        proof {
            lemma_total_cost_prefix(tvs, i + 1);
        }
        let c = cost_of_turn(t);
        accum_turn(&mut st.accs, t, c, Ghost(st.nanos as nat), Ghost(i as nat));
        match c {
            Some(n) => {
                st.turns_priced = st.turns_priced + 1;
                st.nanos = st.nanos + n;
            },
            None => {
                st.turns_unknown = st.turns_unknown + 1;
            },
        }
        st.uncached = st.uncached.wrapping_add(t.input_tokens);
        st.cached = st.cached.wrapping_add(t.cached_input_tokens);
        st.output = st.output.wrapping_add(t.output_tokens);
        let start = match st.start {
            Some(p) => if p.before(&t.timestamp) { p } else { t.timestamp },
            None => t.timestamp,
        };
        let end = match st.end {
            Some(p) => if t.timestamp.before(&p) { p } else { t.timestamp },
            None => t.timestamp,
        };
        st.start = Some(start);
        st.end = Some(end);
        i = i + 1;
    }
    assert(tvs.take(turns.len() as int) =~= tvs);
    st
}

/// Whether totals `x` come before totals `y` in the report: larger cost
/// first, then more tokens.
pub open spec fn cost_precedes(x: AccumView, y: AccumView) -> bool {
    x.nanos > y.nanos || (x.nanos == y.nanos && x.total_tokens > y.total_tokens)
}

/// Inserts totals before the first entry that they come before.
pub open spec fn insert_by_cost(s: Seq<AccumView>, x: AccumView) -> Seq<AccumView>
    decreases s.len(),
{
    if s.len() == 0 {
        seq![x]
    } else if cost_precedes(x, s[0]) {
        seq![x] + s
    } else {
        seq![s[0]] + insert_by_cost(s.drop_first(), x)
    }
}

/// The stable sort of totals into report order.
pub open spec fn sort_by_cost(s: Seq<AccumView>) -> Seq<AccumView>
    decreases s.len(),
{
    if s.len() == 0 {
        s
    } else {
        insert_by_cost(sort_by_cost(s.drop_last()), s.last())
    }
}

/// The ids of the totals that no priced turn reached, in order.
pub open spec fn unpriced_ids(s: Seq<AccumView>) -> Seq<Seq<char>>
    decreases s.len(),
{
    if s.len() == 0 {
        Seq::empty()
    } else if s.last().priced {
        unpriced_ids(s.drop_last())
    } else {
        unpriced_ids(s.drop_last()).push(s.last().raw)
    }
}

proof fn lemma_insert_by_cost(s: Seq<AccumView>, x: AccumView, p: int)
    requires
        0 <= p <= s.len(),
        forall|k: int| 0 <= k < p ==> !cost_precedes(x, #[trigger] s[k]),
        p < s.len() ==> cost_precedes(x, s[p]),
    ensures
        insert_by_cost(s, x) == s.take(p) + seq![x] + s.skip(p),
    decreases p,
{
    if p == 0 {
        if s.len() == 0 {
            assert(s.take(0) + seq![x] + s.skip(0) =~= seq![x]);
        } else {
            assert(s.take(0) + seq![x] + s.skip(0) =~= seq![x] + s);
        }
    } else {
        lemma_insert_by_cost(s.drop_first(), x, p - 1);
        assert(s.take(p) + seq![x] + s.skip(p) =~= seq![s[0]] + (s.drop_first().take(p - 1)
            + seq![x] + s.drop_first().skip(p - 1)));
    }
}

fn precedes_exec(x: &ModelAccum, y: &ModelAccum) -> (r: bool)
    ensures
        r == cost_precedes(accum_view(*x), accum_view(*y)),
{
    x.nanos > y.nanos || (x.nanos == y.nanos && x.total_tokens > y.total_tokens)
}

/// The totals in report order: the id order reversed, then stably sorted
/// by `cost_precedes`.
fn report_order(accs: Vec<ModelAccum>, Ghost(nb): Ghost<nat>) -> (r: Vec<ModelAccum>)
    requires
        forall|k: int| 0 <= k < accs@.len() ==> (#[trigger] accs@[k]).nanos <= nb,
    ensures
        accum_views(r@) == sort_by_cost(accum_views(accs@).reverse()),
        forall|k: int| 0 <= k < r@.len() ==> (#[trigger] r@[k]).nanos <= nb,
{
    let ghost all = accum_views(accs@);
    let ghost n = accs@.len();
    assert(n <= usize::MAX) by {
        assert(accs@.len() == accs.len());
    }
    let mut src = accs;
    let mut out: Vec<ModelAccum> = Vec::new();
    let mut j: usize = 0;
    assert(all.reverse().take(0) =~= Seq::<AccumView>::empty());
    while src.len() > 0
        invariant
            j <= n,
            n <= usize::MAX,
            src@.len() + j == n,
            all.len() == n,
            accum_views(src@) == all.take(n - j),
            accum_views(out@) == sort_by_cost(all.reverse().take(j as int)),
            forall|k: int| 0 <= k < src@.len() ==> (#[trigger] src@[k]).nanos <= nb,
            forall|k: int| 0 <= k < out@.len() ==> (#[trigger] out@[k]).nanos <= nb,
        decreases src.len(),
    {
        let ghost sb = src@;
        let x = src.pop().unwrap();
        assert(src@ =~= sb.drop_last());
        assert(accum_views(src@) =~= all.take(n - j - 1));
        assert(x == sb[n - j - 1]);
        assert(accum_views(sb)[n - j - 1] == accum_view(sb[n - j - 1]));
        assert(accum_view(x) == all[n - j - 1]);
        assert(all.reverse().take(j + 1).drop_last() =~= all.reverse().take(j as int));
        assert(all.reverse().take(j + 1).last() == all[n - j - 1]);
        assert(x.nanos <= nb) by {
            assert(x == sb[sb.len() - 1]);
        }
        let mut p: usize = 0;
        while p < out.len() && !precedes_exec(&x, &out[p])
            invariant
                p <= out.len(),
                forall|k: int| 0 <= k < p ==> !cost_precedes(accum_view(x), #[trigger] accum_views(out@)[k]),
            decreases out.len() - p,
        {
            p = p + 1;
        }
        let ghost before = out@;
        proof {
            lemma_insert_by_cost(accum_views(before), accum_view(x), p as int);
        }
        out.insert(p, x);
        assert(accum_views(out@) =~= accum_views(before).take(p as int) + seq![accum_view(x)]
            + accum_views(before).skip(p as int));
        assert forall|k: int| 0 <= k < out@.len() implies (#[trigger] out@[k]).nanos <= nb by {
            if k < p {
                assert(out@[k] == before[k]);
            } else if k > p {
                assert(out@[k] == before[k - 1]);
            }
        }
        assert forall|k: int| 0 <= k < src@.len() implies (#[trigger] src@[k]).nanos <= nb by {
            assert(src@[k] == sb[k]);
        }
        j = j + 1;
    }
    assert(all.reverse().take(n as int) =~= all.reverse());
    out
}

/// The ids of the totals that no priced turn reached; see `unpriced_ids`.
fn unpriced_models(accs: &Vec<ModelAccum>) -> (r: Vec<String>)
    ensures
        r@.map_values(|s: String| s@) == unpriced_ids(accum_views(accs@)),
{
    let ghost all = accum_views(accs@);
    let mut out: Vec<String> = Vec::new();
    let mut i: usize = 0;
    assert(all.take(0) =~= Seq::<AccumView>::empty());
    assert(out@.map_values(|s: String| s@) =~= Seq::<Seq<char>>::empty());
    while i < accs.len()
        invariant
            i <= accs.len(),
            all == accum_views(accs@),
            out@.map_values(|s: String| s@) == unpriced_ids(all.take(i as int)),
        decreases accs.len() - i,
    {
        assert(all.take(i + 1).drop_last() =~= all.take(i as int));
        assert(all.take(i + 1).last() == accum_view(accs@[i as int]));
        if !accs[i].priced {
            let ghost before = out@;
            out.push(accs[i].raw_model.clone());
            assert(out@.map_values(|s: String| s@) =~= before.map_values(|s: String| s@).push(accs@[i as int].raw_model@));
        }
        i = i + 1;
    }
    assert(all.take(accs.len() as int) =~= all);
    out
}

/// One row of the cost report: the turns of one raw model id.
#[derive(Debug)]
pub struct ModelCost {
    pub raw_model: String,
    /// The `Model` the id classifies as, by variant name.
    pub classified: String,
    pub turns: usize,
    pub input_tokens: i64,
    pub cached_input_tokens: i64,
    pub output_tokens: i64,
    pub total_tokens: i64,
    pub estimated_usd: Decimal,
    /// Whether any of the turns had a price.
    pub priced: bool,
}

pub ghost struct ModelCostView {
    pub raw_model: Seq<char>,
    pub classified: Seq<char>,
    pub turns: nat,
    pub input_tokens: i64,
    pub cached_input_tokens: i64,
    pub output_tokens: i64,
    pub total_tokens: i64,
    pub estimated_usd: Decimal,
    pub priced: bool,
}

pub open spec fn model_cost_view(m: ModelCost) -> ModelCostView {
    ModelCostView {
        raw_model: m.raw_model@,
        classified: m.classified@,
        turns: m.turns as nat,
        input_tokens: m.input_tokens,
        cached_input_tokens: m.cached_input_tokens,
        output_tokens: m.output_tokens,
        total_tokens: m.total_tokens,
        estimated_usd: m.estimated_usd,
        priced: m.priced,
    }
}

pub open spec fn model_cost_views(s: Seq<ModelCost>) -> Seq<ModelCostView> {
    s.map_values(|m: ModelCost| model_cost_view(m))
}

/// The report row of the totals of one id: the amount in dollars.
pub open spec fn report_row(a: AccumView) -> ModelCostView {
    ModelCostView {
        raw_model: a.raw,
        classified: spec_model_name(a.classified),
        turns: a.turns,
        input_tokens: a.input_tokens,
        cached_input_tokens: a.cached_input_tokens,
        output_tokens: a.output_tokens,
        total_tokens: a.total_tokens,
        estimated_usd: decimal_scaled(a.nanos as int, 9),
        priced: a.priced,
    }
}

/// The cost report of the turns of the session logs.
#[derive(Debug)]
pub struct CostSummary {
    pub pricing_version: String,
    pub window_start: Timestamp,
    pub window_end: Timestamp,
    pub turns_priced: usize,
    pub turns_unknown: usize,
    pub total_uncached_input_tokens: i64,
    pub total_cached_input_tokens: i64,
    pub total_output_tokens: i64,
    pub total_tokens: i64,
    pub estimated_usd: Decimal,
    pub per_model: Vec<ModelCost>,
    pub unknown_models: Vec<String>,
}

pub ghost struct CostSummaryView {
    pub pricing_version: Seq<char>,
    pub window_start: Timestamp,
    pub window_end: Timestamp,
    pub turns_priced: nat,
    pub turns_unknown: nat,
    pub total_uncached_input_tokens: i64,
    pub total_cached_input_tokens: i64,
    pub total_output_tokens: i64,
    pub total_tokens: i64,
    pub estimated_usd: Decimal,
    pub per_model: Seq<ModelCostView>,
    pub unknown_models: Seq<Seq<char>>,
}

pub open spec fn cost_summary_view(c: CostSummary) -> CostSummaryView {
    CostSummaryView {
        pricing_version: c.pricing_version@,
        window_start: c.window_start,
        window_end: c.window_end,
        turns_priced: c.turns_priced as nat,
        turns_unknown: c.turns_unknown as nat,
        total_uncached_input_tokens: c.total_uncached_input_tokens,
        total_cached_input_tokens: c.total_cached_input_tokens,
        total_output_tokens: c.total_output_tokens,
        total_tokens: c.total_tokens,
        estimated_usd: c.estimated_usd,
        per_model: model_cost_views(c.per_model@),
        unknown_models: c.unknown_models@.map_values(|s: String| s@),
    }
}

/// The cost report of turns: the window spans their timestamps (`now` for
/// both ends when there are none); the rows are the per-id totals in report
/// order; the unknown models are the ids, in id order, that no priced turn
/// reached.
pub open spec fn spec_cost_summary(ts: Seq<TurnView>, now: Timestamp) -> CostSummaryView {
    let f = spec_cost_fold(ts);
    CostSummaryView {
        pricing_version: PRICING_VERSION@,
        window_start: match f.start { Some(t) => t, None => now },
        window_end: match f.end { Some(t) => t, None => now },
        turns_priced: f.turns_priced,
        turns_unknown: f.turns_unknown,
        total_uncached_input_tokens: f.uncached,
        total_cached_input_tokens: f.cached,
        total_output_tokens: f.output,
        total_tokens: f.uncached.wrapping_add(f.cached).wrapping_add(f.output),
        estimated_usd: decimal_scaled(f.nanos as int, 9),
        per_model: sort_by_cost(f.accs.reverse()).map_values(|a: AccumView| report_row(a)),
        unknown_models: unpriced_ids(f.accs),
    }
}

/// The report rows of totals, in order.
fn report_rows(accs: Vec<ModelAccum>) -> (r: Vec<ModelCost>)
    requires
        forall|k: int| 0 <= k < accs@.len() ==> (#[trigger] accs@[k]).nanos <= decimal_mantissa_max(),
    ensures
        model_cost_views(r@) == accum_views(accs@).map_values(|a: AccumView| report_row(a)),
{
    let ghost all = accs@;
    let mut src = accs;
    let mut out: Vec<ModelCost> = Vec::new();
    let ghost n = all.len();
    assert(all.skip(0) =~= all);
    while src.len() > 0
        invariant
            src@.len() + out@.len() == n,
            n == all.len(),
            src@ == all.skip(out@.len() as int),
            forall|k: int| 0 <= k < all.len() ==> (#[trigger] all[k]).nanos <= decimal_mantissa_max(),
            model_cost_views(out@) == accum_views(all.take(out@.len() as int)).map_values(|a: AccumView| report_row(a)),
        decreases src.len(),
    {
        let ghost j: int = out@.len() as int;
        let a = src.remove(0);
        assert(a == all[j]);
        assert(src@ =~= all.skip(j + 1));
        let ghost before = out@;
        let row = ModelCost {
            classified: a.classified.name().to_owned(),
            estimated_usd: usd_from_nanos(a.nanos),
            raw_model: a.raw_model,
            turns: a.turns,
            input_tokens: a.input_tokens,
            cached_input_tokens: a.cached_input_tokens,
            output_tokens: a.output_tokens,
            total_tokens: a.total_tokens,
            priced: a.priced,
        };
        out.push(row);
        assert(model_cost_view(row) == report_row(accum_view(a)));
        assert(accum_views(all.take(j + 1)) =~= accum_views(all.take(j)).push(accum_view(a)));
        assert(model_cost_views(out@) =~= model_cost_views(before).push(model_cost_view(row)));
        assert(accum_views(all.take(j + 1)).map_values(|a: AccumView| report_row(a))
            =~= accum_views(all.take(j)).map_values(|a: AccumView| report_row(a)).push(report_row(accum_view(a))));
    }
    assert(all.take(n as int) =~= all);
    out
}

/// The cost report of turns; see `spec_cost_summary`. Amounts are summed
/// as whole nano-dollars, a `Decimal` at the fixed scale of 9, so the total
/// must fit that type's 96-bit mantissa: at most 2^96 - 1 nano-dollars,
/// about 7.9e19 USD (`priced_total` tells whether it does).
pub fn cost_summary(turns: &Vec<SessionTurn>, now: Timestamp) -> (r: CostSummary)
    requires
        total_cost(turn_views(turns@)) <= decimal_mantissa_max(),
    ensures
        cost_summary_view(r) == spec_cost_summary(turn_views(turns@), now),
{
    let st = fold_turns(turns);
    let ghost f = state_view(st);
    let unknown_models = unpriced_models(&st.accs);
    let ordered = report_order(st.accs, Ghost(st.nanos as nat));
    let per_model = report_rows(ordered);
    CostSummary {
        pricing_version: PRICING_VERSION.to_owned(),
        window_start: match st.start { Some(t) => t, None => now },
        window_end: match st.end { Some(t) => t, None => now },
        turns_priced: st.turns_priced,
        turns_unknown: st.turns_unknown,
        total_uncached_input_tokens: st.uncached,
        total_cached_input_tokens: st.cached,
        total_output_tokens: st.output,
        total_tokens: st.uncached.wrapping_add(st.cached).wrapping_add(st.output),
        estimated_usd: usd_from_nanos(st.nanos),
        per_model,
        unknown_models,
    }
}

/// The priced cost of turns in nano-dollars, `None` when it does not fit a
/// `Decimal`.
pub fn priced_total(turns: &Vec<SessionTurn>) -> (r: Option<u128>)
    ensures
        r matches Some(n) ==> n == total_cost(turn_views(turns@)),
        r is Some <==> total_cost(turn_views(turns@)) <= decimal_mantissa_max(),
{
    let ghost tvs = turn_views(turns@);
    let mut sum: u128 = 0;
    let mut i: usize = 0;
    assert(tvs.take(0) =~= Seq::<TurnView>::empty());
    while i < turns.len()
        invariant
            i <= turns.len(),
            tvs == turn_views(turns@),
            sum == total_cost(tvs.take(i as int)),
            sum <= decimal_mantissa_max(),
        decreases turns.len() - i,
    {
        assert(tvs.take(i + 1).drop_last() =~= tvs.take(i as int));
        assert(tvs.take(i + 1).last() == turn_view(turns@[i as int]));
        let c = cost_of_turn(&turns[i]);
        match c {
            Some(n) => {
                if n > 0xffff_ffff_ffff_ffff_ffff_ffff - sum {
                    proof {
                        lemma_total_cost_prefix(tvs, i + 1);
                    }
                    return None;
                }
                sum = sum + n;
            },
            None => {},
        }
        i = i + 1;
    }
    assert(tvs.take(turns.len() as int) =~= tvs);
    Some(sum)
}

/// Totals in report order: no entry comes before one ahead of it.
pub open spec fn in_report_order(s: Seq<AccumView>) -> bool {
    forall|i: int, j: int| 0 <= i < j < s.len() ==> !cost_precedes(#[trigger] s[j], #[trigger] s[i])
}

proof fn lemma_insert_by_cost_sorted(s: Seq<AccumView>, x: AccumView)
    requires
        in_report_order(s),
    ensures
        in_report_order(insert_by_cost(s, x)),
        insert_by_cost(s, x).len() == s.len() + 1,
        forall|k: int| 0 <= k < insert_by_cost(s, x).len() ==> #[trigger] insert_by_cost(s, x)[k] == x
            || exists|j: int| 0 <= j < s.len() && insert_by_cost(s, x)[k] == s[j],
    decreases s.len(),
{
    let r = insert_by_cost(s, x);
    if s.len() == 0 {
    } else if cost_precedes(x, s[0]) {
        assert(r == seq![x] + s);
        assert forall|k: int| 0 <= k < r.len() implies #[trigger] r[k] == x
            || exists|j: int| 0 <= j < s.len() && r[k] == s[j] by {
            if k > 0 {
                assert(r[k] == s[k - 1]);
            }
        }
        assert forall|i: int, j: int| 0 <= i < j < r.len() implies !cost_precedes(#[trigger] r[j], #[trigger] r[i]) by {
            if i == 0 {
                assert(r[j] == s[j - 1]);
                if j - 1 > 0 {
                    assert(!cost_precedes(s[j - 1], s[0]));
                }
            } else {
                assert(r[i] == s[i - 1] && r[j] == s[j - 1]);
            }
        }
    } else {
        let rest = s.drop_first();
        assert(in_report_order(rest)) by {
            assert forall|i: int, j: int| 0 <= i < j < rest.len() implies !cost_precedes(#[trigger] rest[j], #[trigger] rest[i]) by {
                assert(rest[i] == s[i + 1] && rest[j] == s[j + 1]);
            }
        }
        lemma_insert_by_cost_sorted(rest, x);
        let t = insert_by_cost(rest, x);
        assert(r == seq![s[0]] + t);
        assert forall|k: int| 0 <= k < r.len() implies #[trigger] r[k] == x
            || exists|j: int| 0 <= j < s.len() && r[k] == s[j] by {
            if k == 0 {
                assert(r[0] == s[0]);
            } else {
                assert(r[k] == t[k - 1]);
                if t[k - 1] != x {
                    let j = choose|j: int| 0 <= j < rest.len() && t[k - 1] == rest[j];
                    assert(r[k] == s[j + 1]);
                }
            }
        }
        assert forall|i: int, j: int| 0 <= i < j < r.len() implies !cost_precedes(#[trigger] r[j], #[trigger] r[i]) by {
            if i == 0 {
                assert(r[j] == t[j - 1]);
                if t[j - 1] != x {
                    let m = choose|m: int| 0 <= m < rest.len() && t[j - 1] == rest[m];
                    assert(rest[m] == s[m + 1]);
                    assert(!cost_precedes(s[m + 1], s[0]));
                }
            } else {
                assert(r[i] == t[i - 1] && r[j] == t[j - 1]);
            }
        }
    }
}

/// The rows of the cost report come largest cost first, ties by tokens:
/// no row comes before one that should precede it.
pub proof fn lemma_report_order(s: Seq<AccumView>)
    ensures
        in_report_order(sort_by_cost(s)),
        sort_by_cost(s).len() == s.len(),
    decreases s.len(),
{
    if s.len() > 0 {
        lemma_report_order(s.drop_last());
        lemma_insert_by_cost_sorted(sort_by_cost(s.drop_last()), s.last());
    }
}

/// Every turn read is counted either as priced or as unknown.
pub proof fn lemma_turns_counted(ts: Seq<TurnView>)
    ensures
        spec_cost_fold(ts).turns_priced + spec_cost_fold(ts).turns_unknown == ts.len(),
    decreases ts.len(),
{
    if ts.len() > 0 {
        lemma_turns_counted(ts.drop_last());
    }
}

/// What every per-id total keeps: it is classified by its id, holds at
/// least one turn, is priced exactly when that model has a price, and an
/// unpriced total has cost nothing.
pub open spec fn honest_total(a: AccumView) -> bool {
    &&& a.classified == spec_classify(a.raw)
    &&& a.turns >= 1
    &&& a.priced == (crate::pricing::spec_price_for(a.classified) is Some)
    &&& !a.priced ==> a.nanos == 0
}

proof fn lemma_find_key_spec(s: Seq<AccumView>, raw: Seq<char>)
    ensures
        find_key(s, raw) >= 0 ==> find_key(s, raw) < s.len() && s[find_key(s, raw)].raw == raw,
    decreases s.len(),
{
    if s.len() > 0 {
        lemma_find_key_spec(s.drop_first(), raw);
    }
}

proof fn lemma_insert_sorted_honest(s: Seq<AccumView>, x: AccumView)
    requires
        forall|k: int| 0 <= k < s.len() ==> honest_total(#[trigger] s[k]),
        honest_total(x),
    ensures
        forall|k: int| 0 <= k < insert_sorted(s, x).len() ==> honest_total(#[trigger] insert_sorted(s, x)[k]),
    decreases s.len(),
{
    let r = insert_sorted(s, x);
    if s.len() == 0 {
    } else if lex_lt(x.raw, s[0].raw) {
        assert forall|k: int| 0 <= k < r.len() implies honest_total(#[trigger] r[k]) by {
            if k > 0 {
                assert(r[k] == s[k - 1]);
            }
        }
    } else {
        let rest = s.drop_first();
        assert forall|k: int| 0 <= k < rest.len() implies honest_total(#[trigger] rest[k]) by {
            assert(rest[k] == s[k + 1]);
        }
        lemma_insert_sorted_honest(rest, x);
        assert forall|k: int| 0 <= k < r.len() implies honest_total(#[trigger] r[k]) by {
            if k > 0 {
                assert(r[k] == insert_sorted(rest, x)[k - 1]);
            }
        }
    }
}

/// Costs are never invented: every per-id total is priced exactly when
/// its model is in the price book, and a total without a price has cost
/// nothing.
pub proof fn lemma_totals_honest(ts: Seq<TurnView>)
    ensures
        forall|k: int| 0 <= k < spec_cost_fold(ts).accs.len() ==> honest_total(#[trigger] spec_cost_fold(ts).accs[k]),
    decreases ts.len(),
{
    if ts.len() > 0 {
        lemma_totals_honest(ts.drop_last());
        let s = spec_cost_fold(ts.drop_last()).accs;
        let t = ts.last();
        let raw = raw_model_of(t);
        let i = find_key(s, raw);
        lemma_find_key_spec(s, raw);
        let r = spec_accum_turn(s, t);
        if i >= 0 {
            assert(honest_total(s[i]));
            assert forall|k: int| 0 <= k < r.len() implies honest_total(#[trigger] r[k]) by {
                if k != i {
                    assert(r[k] == s[k]);
                }
            }
        } else {
            lemma_insert_sorted_honest(s, grow_accum(empty_accum(raw), t));
        }
    }
}

/// The sum of a quantity over totals.
pub open spec fn sum_by(s: Seq<AccumView>, f: spec_fn(AccumView) -> int) -> int
    decreases s.len(),
{
    if s.len() == 0 {
        0
    } else {
        f(s[0]) + sum_by(s.drop_first(), f)
    }
}

proof fn lemma_sum_push(s: Seq<AccumView>, x: AccumView, f: spec_fn(AccumView) -> int)
    ensures
        sum_by(s.push(x), f) == sum_by(s, f) + f(x),
    decreases s.len(),
{
    if s.len() == 0 {
        assert(s.push(x).drop_first() =~= Seq::<AccumView>::empty());
        assert(sum_by(s.push(x).drop_first(), f) == 0);
        assert(s.push(x)[0] == x);
    } else {
        lemma_sum_push(s.drop_first(), x, f);
        assert(s.push(x).drop_first() =~= s.drop_first().push(x));
        assert(s.push(x)[0] == s[0]);
    }
}

proof fn lemma_sum_reverse(s: Seq<AccumView>, f: spec_fn(AccumView) -> int)
    ensures
        sum_by(s.reverse(), f) == sum_by(s, f),
    decreases s.len(),
{
    if s.len() > 0 {
        let init = s.drop_last();
        lemma_sum_reverse(init, f);
        assert(s.reverse().drop_first() =~= init.reverse());
        assert(s.reverse()[0] == s.last());
        lemma_sum_push(init, s.last(), f);
        assert(init.push(s.last()) =~= s);
    }
}

proof fn lemma_sum_update(s: Seq<AccumView>, i: int, e: AccumView, f: spec_fn(AccumView) -> int)
    requires
        0 <= i < s.len(),
    ensures
        sum_by(s.update(i, e), f) + f(s[i]) == sum_by(s, f) + f(e),
    decreases s.len(),
{
    if i > 0 {
        lemma_sum_update(s.drop_first(), i - 1, e, f);
        assert(s.update(i, e).drop_first() =~= s.drop_first().update(i - 1, e));
    } else {
        assert(s.update(0, e).drop_first() =~= s.drop_first());
    }
}

proof fn lemma_sum_insert_sorted(s: Seq<AccumView>, x: AccumView, f: spec_fn(AccumView) -> int)
    ensures
        sum_by(insert_sorted(s, x), f) == sum_by(s, f) + f(x),
    decreases s.len(),
{
    if s.len() == 0 {
        assert(seq![x].drop_first() =~= Seq::<AccumView>::empty());
        assert(sum_by(seq![x].drop_first(), f) == 0);
    } else if lex_lt(x.raw, s[0].raw) {
        assert((seq![x] + s).drop_first() =~= s);
    } else {
        lemma_sum_insert_sorted(s.drop_first(), x, f);
        assert((seq![s[0]] + insert_sorted(s.drop_first(), x)).drop_first() =~= insert_sorted(s.drop_first(), x));
    }
}

proof fn lemma_sum_insert_by_cost(s: Seq<AccumView>, x: AccumView, f: spec_fn(AccumView) -> int)
    ensures
        sum_by(insert_by_cost(s, x), f) == sum_by(s, f) + f(x),
    decreases s.len(),
{
    if s.len() == 0 {
        assert(seq![x].drop_first() =~= Seq::<AccumView>::empty());
        assert(sum_by(seq![x].drop_first(), f) == 0);
    } else if cost_precedes(x, s[0]) {
        assert((seq![x] + s).drop_first() =~= s);
    } else {
        lemma_sum_insert_by_cost(s.drop_first(), x, f);
        assert((seq![s[0]] + insert_by_cost(s.drop_first(), x)).drop_first() =~= insert_by_cost(s.drop_first(), x));
    }
}

proof fn lemma_sum_sort_by_cost(s: Seq<AccumView>, f: spec_fn(AccumView) -> int)
    ensures
        sum_by(sort_by_cost(s), f) == sum_by(s, f),
    decreases s.len(),
{
    if s.len() > 0 {
        lemma_sum_sort_by_cost(s.drop_last(), f);
        lemma_sum_insert_by_cost(sort_by_cost(s.drop_last()), s.last(), f);
        lemma_sum_push(s.drop_last(), s.last(), f);
        assert(s.drop_last().push(s.last()) =~= s);
    }
}

/// The cost of a total, in nano-dollars.
pub open spec fn nanos_of(a: AccumView) -> int {
    a.nanos as int
}

/// The number of turns of a total.
pub open spec fn turns_of(a: AccumView) -> int {
    a.turns as int
}

proof fn lemma_fold_sums(ts: Seq<TurnView>)
    ensures
        sum_by(spec_cost_fold(ts).accs, |a: AccumView| nanos_of(a)) == spec_cost_fold(ts).nanos,
        sum_by(spec_cost_fold(ts).accs, |a: AccumView| turns_of(a)) == ts.len(),
    decreases ts.len(),
{
    let fnan = |a: AccumView| nanos_of(a);
    let ftur = |a: AccumView| turns_of(a);
    if ts.len() > 0 {
        lemma_fold_sums(ts.drop_last());
        let s = spec_cost_fold(ts.drop_last()).accs;
        let t = ts.last();
        let raw = raw_model_of(t);
        let i = find_key(s, raw);
        lemma_find_key_spec(s, raw);
        if i >= 0 {
            lemma_sum_update(s, i, grow_accum(s[i], t), fnan);
            lemma_sum_update(s, i, grow_accum(s[i], t), ftur);
        } else {
            lemma_sum_insert_sorted(s, grow_accum(empty_accum(raw), t), fnan);
            lemma_sum_insert_sorted(s, grow_accum(empty_accum(raw), t), ftur);
        }
    }
}

/// The rows of the cost report add up: their costs sum to the report's
/// total cost and their turns to the number of turns read.
pub proof fn lemma_report_adds_up(ts: Seq<TurnView>)
    ensures
        sum_by(sort_by_cost(spec_cost_fold(ts).accs.reverse()), |a: AccumView| nanos_of(a)) == spec_cost_fold(ts).nanos,
        sum_by(sort_by_cost(spec_cost_fold(ts).accs.reverse()), |a: AccumView| turns_of(a)) == ts.len(),
{
    let accs = spec_cost_fold(ts).accs;
    let fnan = |a: AccumView| nanos_of(a);
    let ftur = |a: AccumView| turns_of(a);
    lemma_fold_sums(ts);
    lemma_sum_sort_by_cost(accs.reverse(), fnan);
    lemma_sum_sort_by_cost(accs.reverse(), ftur);
    lemma_sum_reverse(accs, fnan);
    lemma_sum_reverse(accs, ftur);
}


/// The running window of the cost fold: present once a turn is read, and
/// spanning every turn read.
proof fn lemma_fold_window(ts: Seq<TurnView>)
    ensures
        spec_cost_fold(ts).start is Some <==> ts.len() > 0,
        spec_cost_fold(ts).end is Some <==> ts.len() > 0,
        forall|k: int|
            0 <= k < ts.len() ==> !ts_lt((#[trigger] ts[k]).timestamp, spec_cost_fold(ts).start->0) && !ts_lt(
                spec_cost_fold(ts).end->0,
                ts[k].timestamp,
            ),
    decreases ts.len(),
{
    if ts.len() > 0 {
        let init = ts.drop_last();
        lemma_fold_window(init);
        assert forall|k: int| 0 <= k < ts.len() implies !ts_lt((#[trigger] ts[k]).timestamp, spec_cost_fold(ts).start->0)
            && !ts_lt(spec_cost_fold(ts).end->0, ts[k].timestamp) by {
            if k < ts.len() - 1 {
                assert(ts[k] == init[k]);
            }
        }
    }
}

/// The window of the cost report is ordered and spans the turns: it starts
/// no later than it ends, and every turn read lies within it.
pub proof fn lemma_window_spans_turns(ts: Seq<TurnView>, now: Timestamp)
    ensures
        !ts_lt(spec_cost_summary(ts, now).window_end, spec_cost_summary(ts, now).window_start),
        forall|k: int|
            0 <= k < ts.len() ==> !ts_lt((#[trigger] ts[k]).timestamp, spec_cost_summary(ts, now).window_start)
                && !ts_lt(spec_cost_summary(ts, now).window_end, ts[k].timestamp),
{
    lemma_fold_window(ts);
    if ts.len() > 0 {
        assert(!ts_lt(ts[0].timestamp, spec_cost_fold(ts).start->0));
        assert(!ts_lt(spec_cost_fold(ts).end->0, ts[0].timestamp));
    }
}


/// Per-id totals in strictly ascending id order.
pub open spec fn ids_ascending(s: Seq<AccumView>) -> bool {
    forall|i: int, j: int| 0 <= i < j < s.len() ==> lex_lt((#[trigger] s[i]).raw, (#[trigger] s[j]).raw)
}

/// No raw model id names two of the totals.
pub open spec fn ids_distinct(s: Seq<AccumView>) -> bool {
    forall|i: int, j: int| 0 <= i < j < s.len() ==> (#[trigger] s[i]).raw != (#[trigger] s[j]).raw
}

proof fn lemma_find_key_absent(s: Seq<AccumView>, raw: Seq<char>)
    ensures
        find_key(s, raw) < 0 ==> forall|k: int| 0 <= k < s.len() ==> (#[trigger] s[k]).raw != raw,
    decreases s.len(),
{
    if s.len() > 0 {
        lemma_find_key_absent(s.drop_first(), raw);
        assert forall|k: int| 0 < k < s.len() implies s[k] == s.drop_first()[k - 1] by {}
    }
}

proof fn lemma_insert_sorted_ascending(s: Seq<AccumView>, x: AccumView)
    requires
        ids_ascending(s),
        forall|k: int| 0 <= k < s.len() ==> (#[trigger] s[k]).raw != x.raw,
    ensures
        ids_ascending(insert_sorted(s, x)),
    decreases s.len(),
{
    let r = insert_sorted(s, x);
    if s.len() == 0 {
    } else if lex_lt(x.raw, s[0].raw) {
        assert forall|i: int, j: int| 0 <= i < j < r.len() implies lex_lt((#[trigger] r[i]).raw, (#[trigger] r[j]).raw) by {
            assert(r[j] == s[j - 1]);
            if i == 0 {
                if j - 1 > 0 {
                    lemma_lex_lt_order(x.raw, s[0].raw, s[j - 1].raw);
                }
            } else {
                assert(r[i] == s[i - 1]);
            }
        }
    } else {
        let rest = s.drop_first();
        lemma_lex_lt_order(x.raw, s[0].raw, x.raw);
        assert(ids_ascending(rest)) by {
            assert forall|i: int, j: int| 0 <= i < j < rest.len() implies lex_lt((#[trigger] rest[i]).raw, (#[trigger] rest[j]).raw) by {
                assert(rest[i] == s[i + 1] && rest[j] == s[j + 1]);
            }
        }
        assert forall|k: int| 0 <= k < rest.len() implies (#[trigger] rest[k]).raw != x.raw by {
            assert(rest[k] == s[k + 1]);
        }
        lemma_insert_sorted_ascending(rest, x);
        lemma_insert_sorted_members(rest, x);
        let t = insert_sorted(rest, x);
        assert(r == seq![s[0]] + t);
        assert forall|i: int, j: int| 0 <= i < j < r.len() implies lex_lt((#[trigger] r[i]).raw, (#[trigger] r[j]).raw) by {
            assert(r[j] == t[j - 1]);
            if i == 0 {
                if t[j - 1] != x {
                    let m = choose|m: int| 0 <= m < rest.len() && t[j - 1] == rest[m];
                    assert(rest[m] == s[m + 1]);
                }
            } else {
                assert(r[i] == t[i - 1]);
            }
        }
    }
}

proof fn lemma_insert_sorted_members(s: Seq<AccumView>, x: AccumView)
    ensures
        insert_sorted(s, x).len() == s.len() + 1,
        forall|k: int| 0 <= k < insert_sorted(s, x).len() ==> #[trigger] insert_sorted(s, x)[k] == x
            || exists|j: int| 0 <= j < s.len() && insert_sorted(s, x)[k] == s[j],
    decreases s.len(),
{
    let r = insert_sorted(s, x);
    if s.len() == 0 {
    } else if lex_lt(x.raw, s[0].raw) {
        assert forall|k: int| 0 <= k < r.len() implies #[trigger] r[k] == x
            || exists|j: int| 0 <= j < s.len() && r[k] == s[j] by {
            if k > 0 {
                assert(r[k] == s[k - 1]);
            }
        }
    } else {
        let rest = s.drop_first();
        lemma_insert_sorted_members(rest, x);
        let t = insert_sorted(rest, x);
        assert forall|k: int| 0 <= k < r.len() implies #[trigger] r[k] == x
            || exists|j: int| 0 <= j < s.len() && r[k] == s[j] by {
            if k == 0 {
                assert(r[0] == s[0]);
            } else {
                assert(r[k] == t[k - 1]);
                if t[k - 1] != x {
                    let j = choose|j: int| 0 <= j < rest.len() && t[k - 1] == rest[j];
                    assert(r[k] == s[j + 1]);
                }
            }
        }
    }
}

/// The per-id totals of the cost fold stay in strictly ascending id order.
proof fn lemma_fold_ids_ascending(ts: Seq<TurnView>)
    ensures
        ids_ascending(spec_cost_fold(ts).accs),
    decreases ts.len(),
{
    if ts.len() > 0 {
        lemma_fold_ids_ascending(ts.drop_last());
        let s = spec_cost_fold(ts.drop_last()).accs;
        let t = ts.last();
        let raw = raw_model_of(t);
        let i = find_key(s, raw);
        lemma_find_key_spec(s, raw);
        lemma_find_key_absent(s, raw);
        let r = spec_accum_turn(s, t);
        if i >= 0 {
            assert forall|a: int, b: int| 0 <= a < b < r.len() implies lex_lt((#[trigger] r[a]).raw, (#[trigger] r[b]).raw) by {
                assert(r[a].raw == s[a].raw && r[b].raw == s[b].raw);
            }
        } else {
            lemma_insert_sorted_ascending(s, grow_accum(empty_accum(raw), t));
        }
    }
}

proof fn lemma_insert_by_cost_distinct(s: Seq<AccumView>, x: AccumView)
    requires
        ids_distinct(s),
        forall|k: int| 0 <= k < s.len() ==> (#[trigger] s[k]).raw != x.raw,
    ensures
        ids_distinct(insert_by_cost(s, x)),
        forall|k: int| 0 <= k < insert_by_cost(s, x).len() ==> #[trigger] insert_by_cost(s, x)[k] == x
            || exists|j: int| 0 <= j < s.len() && insert_by_cost(s, x)[k] == s[j],
    decreases s.len(),
{
    let r = insert_by_cost(s, x);
    if s.len() == 0 {
    } else if cost_precedes(x, s[0]) {
        assert forall|k: int| 0 <= k < r.len() implies #[trigger] r[k] == x
            || exists|j: int| 0 <= j < s.len() && r[k] == s[j] by {
            if k > 0 {
                assert(r[k] == s[k - 1]);
            }
        }
        assert forall|i: int, j: int| 0 <= i < j < r.len() implies (#[trigger] r[i]).raw != (#[trigger] r[j]).raw by {
            assert(r[j] == s[j - 1]);
            if i > 0 {
                assert(r[i] == s[i - 1]);
            }
        }
    } else {
        let rest = s.drop_first();
        assert forall|i: int, j: int| 0 <= i < j < rest.len() implies (#[trigger] rest[i]).raw != (#[trigger] rest[j]).raw by {
            assert(rest[i] == s[i + 1] && rest[j] == s[j + 1]);
        }
        assert forall|k: int| 0 <= k < rest.len() implies (#[trigger] rest[k]).raw != x.raw by {
            assert(rest[k] == s[k + 1]);
        }
        lemma_insert_by_cost_distinct(rest, x);
        let t = insert_by_cost(rest, x);
        assert(r == seq![s[0]] + t);
        assert forall|k: int| 0 <= k < r.len() implies #[trigger] r[k] == x
            || exists|j: int| 0 <= j < s.len() && r[k] == s[j] by {
            if k == 0 {
                assert(r[0] == s[0]);
            } else {
                assert(r[k] == t[k - 1]);
                if t[k - 1] != x {
                    let j = choose|j: int| 0 <= j < rest.len() && t[k - 1] == rest[j];
                    assert(r[k] == s[j + 1]);
                }
            }
        }
        assert forall|i: int, j: int| 0 <= i < j < r.len() implies (#[trigger] r[i]).raw != (#[trigger] r[j]).raw by {
            assert(r[j] == t[j - 1]);
            if i == 0 {
                if t[j - 1] != x {
                    let m = choose|m: int| 0 <= m < rest.len() && t[j - 1] == rest[m];
                    assert(rest[m] == s[m + 1]);
                }
            } else {
                assert(r[i] == t[i - 1]);
            }
        }
    }
}

proof fn lemma_sort_by_cost_distinct(s: Seq<AccumView>)
    requires
        ids_distinct(s),
    ensures
        ids_distinct(sort_by_cost(s)),
        forall|k: int| 0 <= k < sort_by_cost(s).len() ==> exists|j: int| 0 <= j < s.len() && #[trigger] sort_by_cost(s)[k] == s[j],
    decreases s.len(),
{
    if s.len() > 0 {
        let init = s.drop_last();
        let x = s.last();
        assert forall|i: int, j: int| 0 <= i < j < init.len() implies (#[trigger] init[i]).raw != (#[trigger] init[j]).raw by {
            assert(init[i] == s[i] && init[j] == s[j]);
        }
        lemma_sort_by_cost_distinct(init);
        let u = sort_by_cost(init);
        assert forall|k: int| 0 <= k < u.len() implies (#[trigger] u[k]).raw != x.raw by {
            let m = choose|m: int| 0 <= m < init.len() && u[k] == init[m];
            assert(init[m] == s[m]);
        }
        lemma_insert_by_cost_distinct(u, x);
        let r = insert_by_cost(u, x);
        assert forall|k: int| 0 <= k < r.len() implies exists|j: int| 0 <= j < s.len() && #[trigger] r[k] == s[j] by {
            if r[k] == x {
                assert(r[k] == s[s.len() - 1]);
            } else {
                let m = choose|m: int| 0 <= m < u.len() && r[k] == u[m];
                let n = choose|n: int| 0 <= n < init.len() && u[m] == init[n];
                assert(r[k] == s[n]);
            }
        }
    }
}

proof fn lemma_unpriced_ids_ascending(s: Seq<AccumView>)
    requires
        ids_ascending(s),
    ensures
        forall|i: int, j: int| 0 <= i < j < unpriced_ids(s).len() ==> lex_lt(
            #[trigger] unpriced_ids(s)[i],
            #[trigger] unpriced_ids(s)[j],
        ),
        forall|k: int| 0 <= k < unpriced_ids(s).len() ==> exists|j: int| 0 <= j < s.len() && #[trigger] unpriced_ids(s)[k] == s[j].raw,
    decreases s.len(),
{
    if s.len() > 0 {
        let init = s.drop_last();
        assert forall|i: int, j: int| 0 <= i < j < init.len() implies lex_lt((#[trigger] init[i]).raw, (#[trigger] init[j]).raw) by {
            assert(init[i] == s[i] && init[j] == s[j]);
        }
        lemma_unpriced_ids_ascending(init);
        let u = unpriced_ids(init);
        if !s.last().priced {
            let r = u.push(s.last().raw);
            assert forall|i: int, j: int| 0 <= i < j < r.len() implies lex_lt(#[trigger] r[i], #[trigger] r[j]) by {
                assert(r[i] == u[i]);
                if j == r.len() - 1 {
                    let m = choose|m: int| 0 <= m < init.len() && u[i] == init[m].raw;
                    assert(init[m] == s[m]);
                    assert(s[m].raw == r[i] && s[s.len() - 1].raw == r[j]);
                } else {
                    assert(r[j] == u[j]);
                }
            }
            assert forall|k: int| 0 <= k < r.len() implies exists|j: int| 0 <= j < s.len() && #[trigger] r[k] == s[j].raw by {
                if k == r.len() - 1 {
                    assert(r[k] == s[s.len() - 1].raw);
                } else {
                    let m = choose|m: int| 0 <= m < init.len() && u[k] == init[m].raw;
                    assert(r[k] == s[m].raw);
                }
            }
        }
    }
}

/// The cost report names each raw model id in one row at most, and lists
/// its unknown models once each, in ascending id order.
pub proof fn lemma_report_ids(ts: Seq<TurnView>, now: Timestamp)
    ensures
        forall|i: int, j: int|
            0 <= i < j < spec_cost_summary(ts, now).per_model.len() ==> (#[trigger] spec_cost_summary(ts, now).per_model[i]).raw_model
                != (#[trigger] spec_cost_summary(ts, now).per_model[j]).raw_model,
        forall|i: int, j: int|
            0 <= i < j < spec_cost_summary(ts, now).unknown_models.len() ==> lex_lt(
                #[trigger] spec_cost_summary(ts, now).unknown_models[i],
                #[trigger] spec_cost_summary(ts, now).unknown_models[j],
            ),
        forall|i: int, j: int|
            0 <= i < j < spec_cost_summary(ts, now).unknown_models.len() ==> #[trigger] spec_cost_summary(ts, now).unknown_models[i]
                != #[trigger] spec_cost_summary(ts, now).unknown_models[j],
{
    let accs = spec_cost_fold(ts).accs;
    lemma_fold_ids_ascending(ts);
    let rev = accs.reverse();
    assert forall|i: int, j: int| 0 <= i < j < rev.len() implies (#[trigger] rev[i]).raw != (#[trigger] rev[j]).raw by {
        let a = accs.len() - 1 - j;
        let b = accs.len() - 1 - i;
        assert(rev[i] == accs[b] && rev[j] == accs[a]);
        lemma_lex_lt_order(accs[a].raw, accs[b].raw, accs[b].raw);
    }
    lemma_sort_by_cost_distinct(rev);
    let sorted = sort_by_cost(rev);
    let rows = spec_cost_summary(ts, now).per_model;
    assert forall|i: int, j: int| 0 <= i < j < rows.len() implies (#[trigger] rows[i]).raw_model != (#[trigger] rows[j]).raw_model by {
        assert(rows[i] == report_row(sorted[i]) && rows[j] == report_row(sorted[j]));
    }
    lemma_unpriced_ids_ascending(accs);
    let u = unpriced_ids(accs);
    assert forall|i: int, j: int| 0 <= i < j < u.len() implies #[trigger] u[i] != #[trigger] u[j] by {
        lemma_lex_lt_order(u[i], u[j], u[j]);
    }
}


/// `k` times 2^64, the modulus of `i64` arithmetic that wraps.
pub open spec fn times_wrap(k: int) -> int {
    k * 0x1_0000_0000_0000_0000
}

/// `x` and `y` agree modulo 2^64, as a sum that wraps in `i64` agrees with
/// the exact sum.
pub open spec fn same_wrapped(x: int, y: int) -> bool {
    exists|k: int| #[trigger] times_wrap(k) == x - y
}

proof fn lemma_wrap_add(a: i64, b: i64)
    ensures
        same_wrapped(a.wrapping_add(b) as int, a + b),
{
    let w = a.wrapping_add(b) as int;
    if a + b > i64::MAX {
        assert(times_wrap(-1) == w - (a + b));
    } else if a + b < i64::MIN {
        assert(times_wrap(1) == w - (a + b));
    } else {
        assert(times_wrap(0) == w - (a + b));
    }
}

proof fn lemma_wrap_sum(a: int, b: int, c: int, d: int)
    requires
        same_wrapped(a, b),
        same_wrapped(c, d),
    ensures
        same_wrapped(a + c, b + d),
        same_wrapped(b, a),
{
    let k1 = choose|k: int| #[trigger] times_wrap(k) == a - b;
    let k2 = choose|k: int| #[trigger] times_wrap(k) == c - d;
    assert(times_wrap(k1 + k2) == (a + c) - (b + d));
    assert(times_wrap(-k1) == b - a);
}

/// A running sum kept per id and overall, after one more turn: if the
/// per-id sums agreed with the overall one before, and both grew by `d`,
/// they agree after.
proof fn lemma_wrap_grow(
    sum_old: int,
    sum_new: int,
    part_old: int,
    part_new: int,
    tot_old: int,
    tot_new: int,
    d: int,
)
    requires
        sum_new == sum_old - part_old + part_new,
        same_wrapped(part_new, part_old + d),
        same_wrapped(sum_old, tot_old),
        same_wrapped(tot_new, tot_old + d),
    ensures
        same_wrapped(sum_new, tot_new),
{
    let k0 = choose|k: int| #[trigger] times_wrap(k) == part_new - (part_old + d);
    let k1 = choose|k: int| #[trigger] times_wrap(k) == sum_old - tot_old;
    let k2 = choose|k: int| #[trigger] times_wrap(k) == tot_new - (tot_old + d);
    assert(times_wrap(k0 + k1 - k2) == sum_new - tot_new);
}

/// The uncached input tokens of a total.
pub open spec fn input_of(a: AccumView) -> int {
    a.input_tokens as int
}

/// The cached input tokens of a total.
pub open spec fn cached_of(a: AccumView) -> int {
    a.cached_input_tokens as int
}

/// The output tokens of a total.
pub open spec fn output_of(a: AccumView) -> int {
    a.output_tokens as int
}

/// All tokens of a total.
pub open spec fn total_of(a: AccumView) -> int {
    a.total_tokens as int
}

/// The token sums of one turn, as a total grows by them.
proof fn lemma_grow_tokens(e: AccumView, t: TurnView)
    ensures
        same_wrapped(input_of(grow_accum(e, t)), input_of(e) + t.input_tokens),
        same_wrapped(cached_of(grow_accum(e, t)), cached_of(e) + t.cached_input_tokens),
        same_wrapped(output_of(grow_accum(e, t)), output_of(e) + t.output_tokens),
        same_wrapped(
            total_of(grow_accum(e, t)),
            total_of(e) + (t.input_tokens + t.cached_input_tokens + t.output_tokens),
        ),
{
    lemma_wrap_add(e.input_tokens, t.input_tokens);
    lemma_wrap_add(e.cached_input_tokens, t.cached_input_tokens);
    lemma_wrap_add(e.output_tokens, t.output_tokens);
    let x1 = t.input_tokens.wrapping_add(t.cached_input_tokens);
    let x = x1.wrapping_add(t.output_tokens);
    lemma_wrap_add(t.input_tokens, t.cached_input_tokens);
    lemma_wrap_add(x1, t.output_tokens);
    assert(same_wrapped(t.output_tokens as int, t.output_tokens as int)) by {
        assert(times_wrap(0) == 0);
    }
    lemma_wrap_sum(x1 as int, t.input_tokens + t.cached_input_tokens, t.output_tokens as int, t.output_tokens as int);
    let k1 = choose|k: int| #[trigger] times_wrap(k) == x - (x1 + t.output_tokens);
    let k2 = choose|k: int| #[trigger] times_wrap(k) == (x1 + t.output_tokens) - (t.input_tokens + t.cached_input_tokens + t.output_tokens);
    assert(times_wrap(k1 + k2) == x - (t.input_tokens + t.cached_input_tokens + t.output_tokens));
    lemma_wrap_add(e.total_tokens, x);
    let k3 = choose|k: int| #[trigger] times_wrap(k) == total_of(grow_accum(e, t)) - (e.total_tokens + x);
    assert(times_wrap(k3 + k1 + k2) == total_of(grow_accum(e, t)) - (total_of(e) + (t.input_tokens
        + t.cached_input_tokens + t.output_tokens)));
}

proof fn lemma_fold_token_sums(ts: Seq<TurnView>)
    ensures
        same_wrapped(sum_by(spec_cost_fold(ts).accs, |a: AccumView| input_of(a)), spec_cost_fold(ts).uncached as int),
        same_wrapped(sum_by(spec_cost_fold(ts).accs, |a: AccumView| cached_of(a)), spec_cost_fold(ts).cached as int),
        same_wrapped(sum_by(spec_cost_fold(ts).accs, |a: AccumView| output_of(a)), spec_cost_fold(ts).output as int),
        same_wrapped(
            sum_by(spec_cost_fold(ts).accs, |a: AccumView| total_of(a)),
            spec_cost_fold(ts).uncached + spec_cost_fold(ts).cached + spec_cost_fold(ts).output,
        ),
    decreases ts.len(),
{
    let fin = |a: AccumView| input_of(a);
    let fca = |a: AccumView| cached_of(a);
    let fou = |a: AccumView| output_of(a);
    let fto = |a: AccumView| total_of(a);
    if ts.len() == 0 {
        assert(times_wrap(0) == 0);
    } else {
        lemma_fold_token_sums(ts.drop_last());
        let f0 = spec_cost_fold(ts.drop_last());
        let f1 = spec_cost_fold(ts);
        let s0 = f0.accs;
        let t = ts.last();
        let raw = raw_model_of(t);
        let i = find_key(s0, raw);
        lemma_find_key_spec(s0, raw);
        lemma_wrap_add(f0.uncached, t.input_tokens);
        lemma_wrap_add(f0.cached, t.cached_input_tokens);
        lemma_wrap_add(f0.output, t.output_tokens);
        lemma_wrap_sum(f1.uncached as int, f0.uncached + t.input_tokens, f1.cached as int, f0.cached + t.cached_input_tokens);
        lemma_wrap_sum(
            f1.uncached + f1.cached,
            f0.uncached + t.input_tokens + (f0.cached + t.cached_input_tokens),
            f1.output as int,
            f0.output + t.output_tokens,
        );
        let d = t.input_tokens + t.cached_input_tokens + t.output_tokens;
        let (old_e, new_e) = if i >= 0 {
            (s0[i], grow_accum(s0[i], t))
        } else {
            (empty_accum(raw), grow_accum(empty_accum(raw), t))
        };
        lemma_grow_tokens(old_e, t);
        if i >= 0 {
            lemma_sum_update(s0, i, new_e, fin);
            lemma_sum_update(s0, i, new_e, fca);
            lemma_sum_update(s0, i, new_e, fou);
            lemma_sum_update(s0, i, new_e, fto);
        } else {
            lemma_sum_insert_sorted(s0, new_e, fin);
            lemma_sum_insert_sorted(s0, new_e, fca);
            lemma_sum_insert_sorted(s0, new_e, fou);
            lemma_sum_insert_sorted(s0, new_e, fto);
        }
        lemma_wrap_grow(sum_by(s0, fin), sum_by(f1.accs, fin), input_of(old_e), input_of(new_e),
            f0.uncached as int, f1.uncached as int, t.input_tokens as int);
        lemma_wrap_grow(sum_by(s0, fca), sum_by(f1.accs, fca), cached_of(old_e), cached_of(new_e),
            f0.cached as int, f1.cached as int, t.cached_input_tokens as int);
        lemma_wrap_grow(sum_by(s0, fou), sum_by(f1.accs, fou), output_of(old_e), output_of(new_e),
            f0.output as int, f1.output as int, t.output_tokens as int);
        lemma_wrap_grow(sum_by(s0, fto), sum_by(f1.accs, fto), total_of(old_e), total_of(new_e),
            f0.uncached + f0.cached + f0.output, f1.uncached + f1.cached + f1.output, d);
    }
}

/// The token counts of the cost report add up: over its rows, the uncached
/// input, cached input, output and total tokens each sum to the report's
/// own total, as `i64` sums that wrap do (modulo 2^64).
pub proof fn lemma_report_tokens_add_up(ts: Seq<TurnView>, now: Timestamp)
    ensures
        same_wrapped(
            sum_by(sort_by_cost(spec_cost_fold(ts).accs.reverse()), |a: AccumView| input_of(a)),
            spec_cost_summary(ts, now).total_uncached_input_tokens as int,
        ),
        same_wrapped(
            sum_by(sort_by_cost(spec_cost_fold(ts).accs.reverse()), |a: AccumView| cached_of(a)),
            spec_cost_summary(ts, now).total_cached_input_tokens as int,
        ),
        same_wrapped(
            sum_by(sort_by_cost(spec_cost_fold(ts).accs.reverse()), |a: AccumView| output_of(a)),
            spec_cost_summary(ts, now).total_output_tokens as int,
        ),
        same_wrapped(
            sum_by(sort_by_cost(spec_cost_fold(ts).accs.reverse()), |a: AccumView| total_of(a)),
            spec_cost_summary(ts, now).total_tokens as int,
        ),
{
    let f = spec_cost_fold(ts);
    let accs = f.accs;
    let fin = |a: AccumView| input_of(a);
    let fca = |a: AccumView| cached_of(a);
    let fou = |a: AccumView| output_of(a);
    let fto = |a: AccumView| total_of(a);
    lemma_fold_token_sums(ts);
    lemma_sum_sort_by_cost(accs.reverse(), fin);
    lemma_sum_sort_by_cost(accs.reverse(), fca);
    lemma_sum_sort_by_cost(accs.reverse(), fou);
    lemma_sum_sort_by_cost(accs.reverse(), fto);
    lemma_sum_reverse(accs, fin);
    lemma_sum_reverse(accs, fca);
    lemma_sum_reverse(accs, fou);
    lemma_sum_reverse(accs, fto);
    let uc = f.uncached.wrapping_add(f.cached);
    lemma_wrap_add(f.uncached, f.cached);
    lemma_wrap_add(uc, f.output);
    let k1 = choose|k: int| #[trigger] times_wrap(k) == uc - (f.uncached + f.cached);
    let k2 = choose|k: int| #[trigger] times_wrap(k) == uc.wrapping_add(f.output) - (uc + f.output);
    let k3 = choose|k: int| #[trigger] times_wrap(k) == sum_by(accs, fto) - (f.uncached + f.cached + f.output);
    assert(times_wrap(k3 - k1 - k2) == sum_by(accs, fto) - uc.wrapping_add(f.output));
}

} // verus!
