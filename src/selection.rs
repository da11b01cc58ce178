//! Input selection: ordering the candidate records by a policy and choosing
//! enough of them to cover a payment.
use vstd::prelude::*;

use crate::state::{UtxoDbData, WalletState};
use crate::text::same_text;

verus! {

/// The policy that orders the candidate records.
#[derive(Clone, Copy, PartialEq, Eq, Structural, Debug)]
pub enum InputSelectionRule {
    /// Smallest amount first.
    Minimum,
    /// Largest amount first.
    Maximum,
    /// Lowest confirmation height first.
    Oldest,
    /// Highest confirmation height first.
    Newest,
    /// A random order.
    Random,
}

impl Default for InputSelectionRule {
    fn default() -> (r: Self)
        ensures
            r == InputSelectionRule::Oldest,
    {
        InputSelectionRule::Oldest
    }
}

/// The rule that a name stands for.
pub open spec fn rule_named(t: Seq<char>) -> Option<InputSelectionRule> {
    if t == "minimum"@ {
        Some(InputSelectionRule::Minimum)
    } else if t == "maximum"@ {
        Some(InputSelectionRule::Maximum)
    } else if t == "oldest"@ {
        Some(InputSelectionRule::Oldest)
    } else if t == "newest"@ {
        Some(InputSelectionRule::Newest)
    } else if t == "random"@ {
        Some(InputSelectionRule::Random)
    } else {
        None
    }
}


/// The amount of a record's output.
pub open spec fn amount_of(u: UtxoDbData) -> int {
    u.recovery_data.utxo.amount as int
}

/// The key by which a rule orders records, ascending.
pub open spec fn sort_key(rule: InputSelectionRule, u: UtxoDbData) -> int {
    match rule {
        InputSelectionRule::Minimum => amount_of(u),
        InputSelectionRule::Maximum => -amount_of(u),
        InputSelectionRule::Oldest => u.confirmed_in_block.height as int,
        InputSelectionRule::Newest => -(u.confirmed_in_block.height as int),
        InputSelectionRule::Random => 0,
    }
}

/// Where `x` goes into the ordered `r`: after every element whose key is not
/// greater than its own.
pub open spec fn insert_position(rule: InputSelectionRule, r: Seq<UtxoDbData>, x: UtxoDbData) -> int
    decreases r.len(),
{
    if r.len() == 0 {
        0
    } else if sort_key(rule, r[0]) > sort_key(rule, x) {
        0
    } else {
        1 + insert_position(rule, r.drop_first(), x)
    }
}

/// The records ordered by the rule's key; records with equal keys keep
/// their relative order.
pub open spec fn sorted_by_rule(rule: InputSelectionRule, u: Seq<UtxoDbData>) -> Seq<UtxoDbData>
    decreases u.len(),
{
    if u.len() == 0 {
        seq![]
    } else {
        let r = sorted_by_rule(rule, u.drop_last());
        r.insert(insert_position(rule, r, u.last()), u.last())
    }
}

/// Relies on rand's `SliceRandom::shuffle` (with the thread-local generator
/// of `rand::rng`): the elements are rearranged in place, none lost or added.
#[verifier::external_body]
fn shuffle_records(v: &mut Vec<UtxoDbData>)
    ensures
        final(v)@.to_multiset() == old(v)@.to_multiset(),
{
    rand::seq::SliceRandom::shuffle(v.as_mut_slice(), &mut rand::rng())
}

/// Whether `a`'s key is greater than `b`'s under the rule.
fn goes_after(rule: InputSelectionRule, a: &UtxoDbData, b: &UtxoDbData) -> (r: bool)
    ensures
        r == (sort_key(rule, *a) > sort_key(rule, *b)),
{
    let x = a.recovery_data.utxo.amount;
    let y = b.recovery_data.utxo.amount;
    let hx = a.confirmed_in_block.height;
    let hy = b.confirmed_in_block.height;
    match rule {
        InputSelectionRule::Minimum => x > y,
        InputSelectionRule::Maximum => x < y,
        InputSelectionRule::Oldest => hx > hy,
        InputSelectionRule::Newest => hx < hy,
        InputSelectionRule::Random => false,
    }
}

pub proof fn lemma_insert_position_bounds(rule: InputSelectionRule, r: Seq<UtxoDbData>, x: UtxoDbData)
    ensures
        0 <= insert_position(rule, r, x) <= r.len(),
    decreases r.len(),
{
    if r.len() > 0 {
        lemma_insert_position_bounds(rule, r.drop_first(), x);
    }
}

pub proof fn lemma_insert_position_splits(rule: InputSelectionRule, r: Seq<UtxoDbData>, x: UtxoDbData)
    ensures
        forall|j: int| 0 <= j < insert_position(rule, r, x) ==> sort_key(rule, #[trigger] r[j]) <= sort_key(rule, x),
        insert_position(rule, r, x) < r.len() ==> sort_key(rule, r[insert_position(rule, r, x)]) > sort_key(rule, x),
    decreases r.len(),
{
    if r.len() > 0 && sort_key(rule, r[0]) <= sort_key(rule, x) {
        let d = r.drop_first();
        lemma_insert_position_splits(rule, d, x);
        lemma_insert_position_bounds(rule, d, x);
        assert forall|j: int| 0 <= j < insert_position(rule, r, x) implies sort_key(rule, #[trigger] r[j]) <= sort_key(rule, x) by {
            if j > 0 {
                assert(r[j] == d[j - 1]);
            }
        }
        if insert_position(rule, r, x) < r.len() {
            assert(r[insert_position(rule, r, x)] == d[insert_position(rule, d, x)]);
        }
    }
}

/// The ordering is ascending in the rule's key.
pub proof fn lemma_sorted_by_rule_ascends(rule: InputSelectionRule, u: Seq<UtxoDbData>)
    ensures
        forall|j: int, k: int|
            0 <= j < k < sorted_by_rule(rule, u).len() ==> sort_key(rule, #[trigger] sorted_by_rule(rule, u)[j])
                <= sort_key(rule, #[trigger] sorted_by_rule(rule, u)[k]),
    decreases u.len(),
{
    if u.len() > 0 {
        let r = sorted_by_rule(rule, u.drop_last());
        let x = u.last();
        lemma_sorted_by_rule_ascends(rule, u.drop_last());
        lemma_insert_position_splits(rule, r, x);
        lemma_insert_position_bounds(rule, r, x);
        let p = insert_position(rule, r, x);
        let s = r.insert(p, x);
        assert forall|j: int, k: int| 0 <= j < k < s.len() implies sort_key(rule, #[trigger] s[j]) <= sort_key(rule, #[trigger] s[k]) by {
            if k < p {
                assert(s[j] == r[j] && s[k] == r[k]);
            } else if k == p {
                assert(s[j] == r[j]);
            } else if j < p {
                assert(s[j] == r[j] && s[k] == r[k - 1]);
            } else if j == p {
                assert(s[k] == r[k - 1]);
                assert(sort_key(rule, r[p]) <= sort_key(rule, r[k - 1]) || p == k - 1);
            } else {
                assert(s[j] == r[j - 1] && s[k] == r[k - 1]);
            }
        }
    }
}

/// Ordering keeps exactly the records it is given.
pub proof fn lemma_sorted_members(rule: InputSelectionRule, u: Seq<UtxoDbData>)
    ensures
        sorted_by_rule(rule, u).len() == u.len(),
        forall|x: UtxoDbData| #[trigger] sorted_by_rule(rule, u).contains(x) ==> u.contains(x),
    decreases u.len(),
{
    if u.len() > 0 {
        let d = u.drop_last();
        lemma_sorted_members(rule, d);
        let r = sorted_by_rule(rule, d);
        let p = insert_position(rule, r, u.last());
        lemma_insert_position_bounds(rule, r, u.last());
        let s = r.insert(p, u.last());
        assert forall|x: UtxoDbData| #[trigger] s.contains(x) implies u.contains(x) by {
            let j = choose|j: int| 0 <= j < s.len() && s[j] == x;
            if j < p {
                assert(r[j] == x);
                assert(r.contains(x));
                let i = choose|i: int| 0 <= i < d.len() && d[i] == x;
                assert(u[i] == x);
            } else if j == p {
                assert(u[u.len() - 1] == x);
            } else {
                assert(r[j - 1] == x);
                assert(r.contains(x));
                let i = choose|i: int| 0 <= i < d.len() && d[i] == x;
                assert(u[i] == x);
            }
        }
    }
}

impl InputSelectionRule {
    /// The rule named `s`: "minimum", "maximum", "oldest", "newest" or
    /// "random"; any other text names none.
    pub fn from_str(s: &str) -> (r: Option<InputSelectionRule>)
        ensures
            r == rule_named(s@),
    {
        if same_text(s, "minimum") {
            Some(InputSelectionRule::Minimum)
        } else if same_text(s, "maximum") {
            Some(InputSelectionRule::Maximum)
        } else if same_text(s, "oldest") {
            Some(InputSelectionRule::Oldest)
        } else if same_text(s, "newest") {
            Some(InputSelectionRule::Newest)
        } else if same_text(s, "random") {
            Some(InputSelectionRule::Random)
        } else {
            None
        }
    }

    /// Orders the records by this rule: ascending or descending amount,
    /// ascending or descending confirmation height (records with equal keys
    /// keep their order), or a random rearrangement.
    pub fn apply(&self, utxos: Vec<UtxoDbData>) -> (r: Vec<UtxoDbData>)
        ensures
            !(*self is Random) ==> r@ == sorted_by_rule(*self, utxos@),
            !(*self is Random) ==> forall|j: int, k: int|
                0 <= j < k < r@.len() ==> sort_key(*self, #[trigger] r@[j]) <= sort_key(*self, #[trigger] r@[k]),
            *self is Random ==> r@.to_multiset() == utxos@.to_multiset(),
    {
        if let InputSelectionRule::Random = self {
            let mut v = utxos;
            shuffle_records(&mut v);
            return v;
        }
        let rule = *self;
        let n = utxos.len();
        let mut out: Vec<UtxoDbData> = Vec::new();
        for i in 0..n
            invariant
                n == utxos@.len(),
                out@ == sorted_by_rule(rule, utxos@.take(i as int)),
        {
            let x = utxos[i];
            let mut pos: usize = 0;
            assert(out@.skip(0) =~= out@);
            while pos < out.len() && !goes_after(rule, &out[pos], &x)
                invariant
                    pos <= out@.len(),
                    insert_position(rule, out@, x) == pos + insert_position(rule, out@.skip(pos as int), x),
                decreases out@.len() - pos,
            {
                assert(out@.skip(pos as int).drop_first() =~= out@.skip(pos + 1));
                pos = pos + 1;
            }
            assert(out@.skip(pos as int).len() == 0 || out@.skip(pos as int)[0] == out@[pos as int]);
            assert(utxos@.take(i + 1).drop_last() =~= utxos@.take(i as int));
            out.insert(pos, x);
        }
        assert(utxos@.take(n as int) =~= utxos@);
        proof {
            lemma_sorted_by_rule_ascends(rule, utxos@);
        }
        out
    }
}

/// Why no input set was produced.
#[derive(Clone, Copy, PartialEq, Eq, Structural, Debug)]
pub enum SelectionError {
    /// A must-include id names no available record, or occurs twice.
    UnavailableInput,
    /// The outputs and fee do not fit in the amount type.
    AmountOverflow,
    /// The available records do not cover the outputs and fee.
    InsufficientFunds,
}

/// A record can be spent now: it is unspent and no pending transaction
/// reserves it.
pub open spec fn is_available(r: UtxoDbData, pending: Seq<i64>) -> bool {
    r.spent_in_block is None && !pending.contains(r.id)
}

/// The available records, in storage order.
pub open spec fn available(recs: Seq<UtxoDbData>, pending: Seq<i64>) -> Seq<UtxoDbData>
    decreases recs.len(),
{
    if recs.len() == 0 {
        seq![]
    } else {
        let rest = available(recs.drop_last(), pending);
        if is_available(recs.last(), pending) {
            rest.push(recs.last())
        } else {
            rest
        }
    }
}

/// The last available record with id `id`.
pub open spec fn available_with_id(recs: Seq<UtxoDbData>, pending: Seq<i64>, id: i64) -> Option<UtxoDbData>
    decreases recs.len(),
{
    if recs.len() == 0 {
        None
    } else if recs.last().id == id && is_available(recs.last(), pending) {
        Some(recs.last())
    } else {
        available_with_id(recs.drop_last(), pending, id)
    }
}

/// The records that the must-include ids name, in the order given; none
/// when an id names no available record or occurs twice.
pub open spec fn must_records(recs: Seq<UtxoDbData>, pending: Seq<i64>, ids: Seq<i64>) -> Option<Seq<UtxoDbData>>
    decreases ids.len(),
{
    if ids.len() == 0 {
        Some(seq![])
    } else {
        match must_records(recs, pending, ids.drop_last()) {
            Some(prev) => if ids.drop_last().contains(ids.last()) {
                None
            } else {
                match available_with_id(recs, pending, ids.last()) {
                    Some(r) => Some(prev.push(r)),
                    None => None,
                }
            },
            None => None,
        }
    }
}

pub open spec fn total_amount(s: Seq<UtxoDbData>) -> int
    decreases s.len(),
{
    if s.len() == 0 {
        0
    } else {
        total_amount(s.drop_last()) + amount_of(s.last())
    }
}

pub open spec fn sum_amounts(s: Seq<u128>) -> int
    decreases s.len(),
{
    if s.len() == 0 {
        0
    } else {
        sum_amounts(s.drop_last()) + s.last()
    }
}

pub open spec fn ids_of(s: Seq<UtxoDbData>) -> Seq<i64> {
    s.map_values(|u: UtxoDbData| u.id)
}

/// The record is time-locked until after `now`.
pub open spec fn locked(u: UtxoDbData, now: u64) -> bool {
    match u.recovery_data.utxo.release_date {
        Some(d) => d > now,
        None => false,
    }
}

/// Greedy choice over the ordered candidates: stop once `total` covers
/// `required`; skip a candidate whose id is taken or that is still
/// time-locked; take any other.
pub open spec fn greedy(c: Seq<UtxoDbData>, total: int, required: int, now: u64, taken: Seq<i64>) -> Seq<UtxoDbData>
    decreases c.len(),
{
    if c.len() == 0 || total >= required {
        seq![]
    } else if taken.contains(c[0].id) || locked(c[0], now) {
        greedy(c.drop_first(), total, required, now, taken)
    } else {
        seq![c[0]] + greedy(c.drop_first(), total + amount_of(c[0]), required, now, taken.push(c[0].id))
    }
}

/// The must-include records, then the greedy choice over `ordered`, when
/// together they cover the outputs and the fee.
pub open spec fn spec_select(
    ordered: Seq<UtxoDbData>,
    must: Seq<UtxoDbData>,
    outputs: Seq<u128>,
    fee: u128,
    now: u64,
) -> Result<Seq<UtxoDbData>, SelectionError> {
    let required = sum_amounts(outputs) + fee;
    if required > u128::MAX {
        Err(SelectionError::AmountOverflow)
    } else {
        let g = greedy(ordered, total_amount(must), required, now, ids_of(must));
        if total_amount(must) + total_amount(g) >= required {
            Ok(must + g)
        } else {
            Err(SelectionError::InsufficientFunds)
        }
    }
}

/// `r` is the outcome of selecting over the ordering `o`.
pub open spec fn selected_from(
    r: Result<Vec<UtxoDbData>, SelectionError>,
    o: Seq<UtxoDbData>,
    must: Seq<UtxoDbData>,
    outputs: Seq<u128>,
    fee: u128,
    now: u64,
) -> bool {
    match spec_select(o, must, outputs, fee, now) {
        Ok(v) => r matches Ok(x) && x@ == v,
        Err(e) => r == Err::<Vec<UtxoDbData>, SelectionError>(e),
    }
}

/// A selection that spends each record at most once, only available ones.
pub open spec fn selection_ok(recs: Seq<UtxoDbData>, pending: Seq<i64>, sel: Seq<UtxoDbData>) -> bool {
    &&& forall|j: int| 0 <= j < sel.len() ==> recs.contains(#[trigger] sel[j]) && is_available(sel[j], pending)
    &&& forall|j: int, k: int| 0 <= j < k < sel.len() ==> #[trigger] sel[j].id != #[trigger] sel[k].id
}

fn contains_id(v: &Vec<i64>, id: i64) -> (r: bool)
    ensures
        r == v@.contains(id),
{
    let n = v.len();
    for i in 0..n
        invariant
            n == v@.len(),
            forall|j: int| 0 <= j < i ==> v@[j] != id,
    {
        if v[i] == id {
            assert(v@[i as int] == id);
            return true;
        }
    }
    false
}

fn add_saturating(total: u128, a: u128) -> (r: u128)
    ensures
        r == if total + a > u128::MAX { u128::MAX as int } else { total + a },
{
    if total > u128::MAX - a {
        u128::MAX
    } else {
        total + a
    }
}

pub proof fn lemma_greedy_props(c: Seq<UtxoDbData>, total: int, required: int, now: u64, taken: Seq<i64>)
    ensures
        ({
            let g = greedy(c, total, required, now, taken);
            &&& forall|j: int| 0 <= j < g.len() ==> c.contains(#[trigger] g[j]) && !taken.contains(g[j].id)
            &&& forall|j: int, k: int| 0 <= j < k < g.len() ==> #[trigger] g[j].id != #[trigger] g[k].id
        }),
    decreases c.len(),
{
    if c.len() > 0 && total < required {
        let d = c.drop_first();
        if taken.contains(c[0].id) || locked(c[0], now) {
            lemma_greedy_props(d, total, required, now, taken);
            let g = greedy(d, total, required, now, taken);
            assert forall|j: int| 0 <= j < g.len() implies c.contains(#[trigger] g[j]) by {
                let i = choose|i: int| 0 <= i < d.len() && d[i] == g[j];
                assert(c[i + 1] == g[j]);
            }
        } else {
            let t2 = taken.push(c[0].id);
            lemma_greedy_props(d, total + amount_of(c[0]), required, now, t2);
            let g2 = greedy(d, total + amount_of(c[0]), required, now, t2);
            let g = greedy(c, total, required, now, taken);
            assert(g == seq![c[0]] + g2);
            assert forall|j: int| 0 <= j < g.len() implies c.contains(#[trigger] g[j]) && !taken.contains(g[j].id) by {
                if j == 0 {
                    assert(c[0] == g[0]);
                } else {
                    assert(g[j] == g2[j - 1]);
                    let i = choose|i: int| 0 <= i < d.len() && d[i] == g2[j - 1];
                    assert(c[i + 1] == g[j]);
                    assert(!t2.contains(g2[j - 1].id));
                    if taken.contains(g[j].id) {
                        let w = choose|w: int| 0 <= w < taken.len() && taken[w] == g[j].id;
                        assert(t2[w] == g[j].id);
                    }
                }
            }
            assert forall|j: int, k: int| 0 <= j < k < g.len() implies #[trigger] g[j].id != #[trigger] g[k].id by {
                if j == 0 {
                    assert(!t2.contains(g2[k - 1].id));
                    assert(t2[taken.len() as int] == c[0].id);
                } else {
                    assert(g[j] == g2[j - 1] && g[k] == g2[k - 1]);
                }
            }
        }
    }
}

/// Chooses inputs: the must-include records first, then records from
/// `ordered` in order, skipping those already chosen and those time-locked
/// past `now`, until the chosen amount covers the outputs plus the fee.
pub fn select_inputs(
    ordered: &Vec<UtxoDbData>,
    must: &Vec<UtxoDbData>,
    outputs: &Vec<u128>,
    fee: u128,
    now: u64,
) -> (r: Result<Vec<UtxoDbData>, SelectionError>)
    ensures
        match spec_select(ordered@, must@, outputs@, fee, now) {
            Ok(v) => r matches Ok(x) && x@ == v,
            Err(e) => r == Err::<Vec<UtxoDbData>, SelectionError>(e),
        },
{
    let mut required: u128 = fee;
    let no = outputs.len();
    let mut overflow = false;
    for i in 0..no
        invariant
            no == outputs@.len(),
            !overflow ==> required == sum_amounts(outputs@.take(i as int)) + fee,
            overflow ==> sum_amounts(outputs@.take(i as int)) + fee > u128::MAX,
    {
        assert(outputs@.take(i + 1).drop_last() =~= outputs@.take(i as int));
        if !overflow {
            if required > u128::MAX - outputs[i] {
                overflow = true;
            } else {
                required = required + outputs[i];
            }
        }
    }
    assert(outputs@.take(no as int) =~= outputs@);
    if overflow {
        return Err(SelectionError::AmountOverflow);
    }
    let ghost req = required as int;
    let mut chosen: Vec<UtxoDbData> = Vec::new();
    let mut taken: Vec<i64> = Vec::new();
    let mut total: u128 = 0;
    let ghost mut exact: int = 0;
    let nm = must.len();
    for i in 0..nm
        invariant
            nm == must@.len(),
            chosen@ == must@.take(i as int),
            taken@ == ids_of(must@.take(i as int)),
            exact == total_amount(must@.take(i as int)),
            exact >= 0,
            total == if exact > u128::MAX { u128::MAX as int } else { exact },
    {
        assert(must@.take(i + 1).drop_last() =~= must@.take(i as int));
        let u = must[i];
        chosen.push(u);
        taken.push(u.id);
        total = add_saturating(total, u.recovery_data.utxo.amount);
        proof {
            exact = exact + u.recovery_data.utxo.amount;
        }
        assert(taken@ =~= ids_of(must@.take(i + 1)));
    }
    assert(must@.take(nm as int) =~= must@);
    let ghost must_total = exact;
    let ghost target = greedy(ordered@, must_total, req, now, ids_of(must@));
    let ghost mut picked: Seq<UtxoDbData> = seq![];
    let n = ordered.len();
    let mut i: usize = 0;
    assert(ordered@.skip(0) =~= ordered@);
    while i < n
        invariant
            n == ordered@.len(),
            i <= n,
            req == required,
            chosen@ == must@ + picked,
            target == picked + greedy(ordered@.skip(i as int), exact, req, now, taken@),
            exact == must_total + total_amount(picked),
            exact >= 0,
            total == if exact > u128::MAX { u128::MAX as int } else { exact },
        ensures
            i >= n || total >= required,
        decreases n - i,
    {
        if total >= required {
            break;
        }
        let u = ordered[i];
        assert(ordered@.skip(i as int).drop_first() =~= ordered@.skip(i + 1));
        assert(ordered@.skip(i as int)[0] == u);
        let is_locked = match u.recovery_data.utxo.release_date {
            Some(d) => d > now,
            None => false,
        };
        let ghost taken_before = taken@;
        if contains_id(&taken, u.id) || is_locked {
        } else {
            chosen.push(u);
            taken.push(u.id);
            total = add_saturating(total, u.recovery_data.utxo.amount);
            proof {
                assert(picked.push(u).drop_last() =~= picked);
                assert(seq![u] + greedy(ordered@.skip(i + 1), exact + amount_of(u), req, now, taken@) =~= greedy(
                    ordered@.skip(i as int), exact, req, now, taken_before));
                picked = picked.push(u);
                exact = exact + amount_of(u);
                assert(target =~= picked + greedy(ordered@.skip(i + 1), exact, req, now, taken@));
            }
        }
        i = i + 1;
    }
    if i >= n {
        assert(ordered@.skip(i as int) =~= Seq::<UtxoDbData>::empty());
    }
    assert(greedy(ordered@.skip(i as int), exact, req, now, taken@) == Seq::<UtxoDbData>::empty());
    assert(target =~= picked);
    assert(chosen@ =~= must@ + target);
    if total >= required {
        Ok(chosen)
    } else {
        Err(SelectionError::InsufficientFunds)
    }
}

pub proof fn lemma_available_members(recs: Seq<UtxoDbData>, pending: Seq<i64>)
    ensures
        forall|x: UtxoDbData| #[trigger] available(recs, pending).contains(x) ==> recs.contains(x) && is_available(x, pending),
    decreases recs.len(),
{
    if recs.len() > 0 {
        let d = recs.drop_last();
        lemma_available_members(d, pending);
        assert forall|x: UtxoDbData| #[trigger] available(recs, pending).contains(x) implies recs.contains(x)
            && is_available(x, pending) by {
            let a = available(recs, pending);
            let j = choose|j: int| 0 <= j < a.len() && a[j] == x;
            if j < available(d, pending).len() {
                assert(available(d, pending)[j] == x);
                assert(available(d, pending).contains(x));
                let i = choose|i: int| 0 <= i < d.len() && d[i] == x;
                assert(recs[i] == x);
            } else {
                assert(recs[recs.len() - 1] == x);
            }
        }
    }
}

pub proof fn lemma_available_with_id(recs: Seq<UtxoDbData>, pending: Seq<i64>, id: i64)
    ensures
        available_with_id(recs, pending, id) matches Some(r) ==> recs.contains(r) && is_available(r, pending) && r.id == id,
    decreases recs.len(),
{
    if recs.len() > 0 {
        let d = recs.drop_last();
        lemma_available_with_id(d, pending, id);
        if let Some(r) = available_with_id(d, pending, id) {
            if !(recs.last().id == id && is_available(recs.last(), pending)) {
                let i = choose|i: int| 0 <= i < d.len() && d[i] == r;
                assert(recs[i] == r);
            }
        }
        assert(recs[recs.len() - 1] == recs.last());
    }
}

pub proof fn lemma_must_records(recs: Seq<UtxoDbData>, pending: Seq<i64>, ids: Seq<i64>)
    ensures
        must_records(recs, pending, ids) matches Some(m) ==> {
            &&& m.len() == ids.len()
            &&& ids_of(m) == ids
            &&& ids.no_duplicates()
            &&& forall|k: int| 0 <= k < m.len() ==> recs.contains(#[trigger] m[k]) && is_available(m[k], pending)
        },
    decreases ids.len(),
{
    if ids.len() > 0 {
        let d = ids.drop_last();
        lemma_must_records(recs, pending, d);
        lemma_available_with_id(recs, pending, ids.last());
        if let Some(m) = must_records(recs, pending, ids) {
            let prev = must_records(recs, pending, d)->Some_0;
            assert(m == prev.push(available_with_id(recs, pending, ids.last())->Some_0));
            let r = available_with_id(recs, pending, ids.last())->Some_0;
            assert(ids_of(prev) == d);
            assert(r.id == ids.last());
            assert(ids_of(m) =~= ids_of(prev).push(r.id));
            assert(d.push(ids.last()) =~= ids);
            assert forall|j: int, k: int| 0 <= j < ids.len() && 0 <= k < ids.len() && j != k implies ids[j] != ids[k] by {
                if k == ids.len() - 1 {
                    assert(d[j] == ids[j]);
                } else if j == ids.len() - 1 {
                    assert(d[k] == ids[k]);
                } else {
                    assert(d[j] == ids[j] && d[k] == ids[k]);
                }
            }
            assert forall|k: int| 0 <= k < m.len() implies recs.contains(#[trigger] m[k]) && is_available(m[k], pending) by {
                if k < prev.len() {
                    assert(m[k] == prev[k]);
                }
            }
        }
    }
}

/// Two build attempts made one after the other under the spend lock, the
/// second one seeing the first one's inputs as reserved, never choose the
/// same record.
pub proof fn lemma_no_double_selection(
    recs: Seq<UtxoDbData>,
    pending: Seq<i64>,
    first: Seq<UtxoDbData>,
    pending_after: Seq<i64>,
    second: Seq<UtxoDbData>,
)
    requires
        selection_ok(recs, pending, first),
        selection_ok(recs, pending_after, second),
        forall|j: int| 0 <= j < first.len() ==> pending_after.contains(#[trigger] first[j].id),
    ensures
        forall|j: int, k: int| 0 <= j < first.len() && 0 <= k < second.len() ==> #[trigger] first[j].id != #[trigger] second[k].id,
{
    assert forall|j: int, k: int| 0 <= j < first.len() && 0 <= k < second.len() implies #[trigger] first[j].id
        != #[trigger] second[k].id by {
        assert(pending_after.contains(first[j].id));
        assert(is_available(second[k], pending_after));
    }
}

impl WalletState {
    /// The records that can be spent now: unspent, and not reserved by a
    /// pending transaction.
    pub fn get_unspent_utxos(&self, pending: &Vec<i64>) -> (r: Vec<UtxoDbData>)
        ensures
            r@ == available(self.records@, pending@),
    {
        let n = self.records.len();
        let mut out: Vec<UtxoDbData> = Vec::new();
        for k in 0..n
            invariant
                n == self.records@.len(),
                out@ == available(self.records@.take(k as int), pending@),
        {
            let r = self.records[k];
            assert(self.records@.take(k + 1).drop_last() =~= self.records@.take(k as int));
            if r.spent_in_block.is_none() && !contains_id(pending, r.id) {
                out.push(r);
            }
        }
        assert(self.records@.take(n as int) =~= self.records@);
        out
    }

    /// The available records that `ids` name, in that order; `None` when an
    /// id names no available record or occurs twice.
    pub fn get_unspent_inputs_with_ids(&self, ids: &Vec<i64>, pending: &Vec<i64>) -> (r: Option<Vec<UtxoDbData>>)
        ensures
            match must_records(self.records@, pending@, ids@) {
                Some(m) => r matches Some(x) && x@ == m,
                None => r is None,
            },
    {
        let mut out: Vec<UtxoDbData> = Vec::new();
        let mut seen: Vec<i64> = Vec::new();
        let n = ids.len();
        for i in 0..n
            invariant
                n == ids@.len(),
                seen@ == ids@.take(i as int),
                must_records(self.records@, pending@, ids@.take(i as int)) == Some(out@),
        {
            let id = ids[i];
            assert(ids@.take(i + 1).drop_last() =~= ids@.take(i as int));
            if contains_id(&seen, id) {
                proof {
                    assert(must_records(self.records@, pending@, ids@.take(i + 1)) is None);
                    lemma_must_none_extends(self.records@, pending@, ids@, i + 1);
                }
                return None;
            }
            let mut found: Option<UtxoDbData> = None;
            let m = self.records.len();
            for k in 0..m
                invariant
                    m == self.records@.len(),
                    found == available_with_id(self.records@.take(k as int), pending@, id),
            {
                let r = self.records[k];
                assert(self.records@.take(k + 1).drop_last() =~= self.records@.take(k as int));
                if r.id == id && r.spent_in_block.is_none() && !contains_id(pending, r.id) {
                    found = Some(r);
                }
            }
            assert(self.records@.take(m as int) =~= self.records@);
            match found {
                Some(r) => {
                    out.push(r);
                    seen.push(id);
                },
                None => {
                    proof {
                        lemma_must_none_extends(self.records@, pending@, ids@, i + 1);
                    }
                    return None;
                },
            }
        }
        assert(ids@.take(n as int) =~= ids@);
        Some(out)
    }

    /// Chooses inputs for a payment of `outputs` plus `fee`: the records of
    /// `must_include_inputs` first, then the available records (neither spent
    /// nor in `pending`) ordered by `rule`, skipping those time-locked past
    /// `now`, until the amount is covered.
    pub fn create_input(
        &self,
        outputs: &Vec<u128>,
        fee: u128,
        rule: InputSelectionRule,
        must_include_inputs: &Vec<i64>,
        pending: &Vec<i64>,
        now: u64,
    ) -> (r: Result<Vec<UtxoDbData>, SelectionError>)
        ensures
            match must_records(self.records@, pending@, must_include_inputs@) {
                None => r == Err::<Vec<UtxoDbData>, SelectionError>(SelectionError::UnavailableInput),
                Some(must) => {
                    &&& !(rule is Random) ==> selected_from(
                        r,
                        sorted_by_rule(rule, available(self.records@, pending@)),
                        must,
                        outputs@,
                        fee,
                        now,
                    )
                    &&& rule is Random ==> exists|o: Seq<UtxoDbData>|
                        o.to_multiset() == available(self.records@, pending@).to_multiset()
                            && #[trigger] selected_from(r, o, must, outputs@, fee, now)
                },
            },
            r matches Ok(x) ==> selection_ok(self.records@, pending@, x@),
    {
        let must = match self.get_unspent_inputs_with_ids(must_include_inputs, pending) {
            Some(m) => m,
            None => return Err(SelectionError::UnavailableInput),
        };
        let candidates = self.get_unspent_utxos(pending);
        let ghost pool = candidates@;
        let ordered = rule.apply(candidates);
        let r = select_inputs(&ordered, &must, outputs, fee, now);
        assert(selected_from(r, ordered@, must@, outputs@, fee, now));
        proof {
            if r is Ok {
                let xs = r->Ok_0@;
                let required = sum_amounts(outputs@) + fee;
                let g = greedy(ordered@, total_amount(must@), required, now, ids_of(must@));
                lemma_greedy_props(ordered@, total_amount(must@), required, now, ids_of(must@));
                lemma_must_records(self.records@, pending@, must_include_inputs@);
                lemma_available_members(self.records@, pending@);
                if !(rule is Random) {
                    lemma_sorted_members(rule, pool);
                } else {
                    ordered@.to_multiset_ensures();
                    pool.to_multiset_ensures();
                }
                assert(xs == must@ + g);
                assert forall|j: int| 0 <= j < xs.len() implies self.records@.contains(#[trigger] xs[j])
                    && is_available(xs[j], pending@) by {
                    if j >= must@.len() {
                        assert(xs[j] == g[j - must@.len()]);
                        assert(ordered@.contains(g[j - must@.len()]));
                        if rule is Random {
                            assert(ordered@.to_multiset().count(xs[j]) > 0);
                        }
                        assert(pool.contains(xs[j]));
                    } else {
                        assert(xs[j] == must@[j]);
                    }
                }
                assert forall|j: int, k: int| 0 <= j < k < xs.len() implies #[trigger] xs[j].id != #[trigger] xs[k].id by {
                    if j >= must@.len() {
                        assert(xs[j] == g[j - must@.len()]);
                        assert(xs[k] == g[k - must@.len()]);
                    } else if k >= must@.len() {
                        assert(xs[k] == g[k - must@.len()]);
                        assert(ids_of(must@)[j] == xs[j].id);
                    } else {
                        assert(ids_of(must@)[j] == xs[j].id);
                        assert(ids_of(must@)[k] == xs[k].id);
                    }
                }
            }
        }
        r
    }
}

/// Once the must-include list fails on a prefix, it fails on the whole list.
pub proof fn lemma_must_none_extends(recs: Seq<UtxoDbData>, pending: Seq<i64>, ids: Seq<i64>, i: int)
    requires
        0 <= i <= ids.len(),
        must_records(recs, pending, ids.take(i)) is None,
    ensures
        must_records(recs, pending, ids) is None,
    decreases ids.len() - i,
{
    if i < ids.len() {
        assert(ids.take(i + 1).drop_last() =~= ids.take(i));
        lemma_must_none_extends(recs, pending, ids, i + 1);
    } else {
        assert(ids.take(i) =~= ids);
    }
}

} // verus!
