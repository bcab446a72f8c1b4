//! Properties of every catalogue that the reader accepts or rejects.
use vstd::prelude::*;

use crate::errors::{Field, LAMDAError, ParseFault};
use crate::io::{after_line, line_at, line_from};
use crate::lamda::{
    coll_of, count_at, first_index, header_at, insert_set, lamda_from, level_of,
    levels_from, partner_at, partner_name_spec, partners_from, rad_of, rates_from, records_from,
    CollSetModel, CollTransModel, JColumn, LAMDAModel, RateModel, lemma_records_len,
    lemma_records_all,
};
use crate::text::{parse_usize_spec, tokens, trim};

verus! {

/// Where the reader stands after `k` more lines from `p`.
pub open spec fn nth_pos(t: Seq<char>, p: int, k: nat) -> int
    decreases k,
{
    if k == 0 {
        p
    } else {
        nth_pos(t, after_line(t, p), (k - 1) as nat)
    }
}

/// Reading `a` lines and then `b` lines is reading `a + b` lines.
pub proof fn lemma_nth_pos_add(t: Seq<char>, p: int, a: nat, b: nat)
    ensures
        nth_pos(t, p, a + b) == nth_pos(t, nth_pos(t, p, a), b),
    decreases a,
{
    if a > 0 {
        lemma_nth_pos_add(t, after_line(t, p), (a - 1) as nat, b);
        assert((a + b - 1) as nat == (a - 1) as nat + b);
    }
}

/// Reading one more line moves on from where `k` lines led.
pub proof fn lemma_nth_pos_succ(t: Seq<char>, p: int, k: nat)
    ensures
        nth_pos(t, p, k + 1) == after_line(t, nth_pos(t, p, k)),
{
    lemma_nth_pos_add(t, p, k, 1);
    assert(nth_pos(t, nth_pos(t, p, k), 1) == nth_pos(t, after_line(t, nth_pos(t, p, k)), 0));
}

/// A batch of `n` records ends `n` lines after it starts.
pub proof fn lemma_records_end<T>(
    t: Seq<char>,
    p: int,
    n: nat,
    f: Field,
    rec: spec_fn(Seq<char>) -> Result<T, LAMDAError>,
    acc: Seq<T>,
)
    requires
        records_from(t, p, n, f, rec, acc) is Ok,
    ensures
        records_from(t, p, n, f, rec, acc)->Ok_0.1 == nth_pos(t, p, n),
    decreases n,
{
    if n > 0 {
        let x = rec(line_from(t, p)->Some_0)->Ok_0;
        lemma_records_end(t, after_line(t, p), (n - 1) as nat, f, rec, acc.push(x));
    }
}

/// The count that a line declares.
pub open spec fn declared_count(t: Seq<char>, p: int) -> Result<usize, crate::text::IntErrorKind> {
    parse_usize_spec(trim(line_at(t, p)))
}

/// A catalogue that is read holds exactly as many levels as the number on
/// the sixth line declares, and exactly as many radiative transitions as the
/// count line after the levels declares.
pub proof fn lemma_counts_kept(t: Seq<char>, p: int, mode: JColumn)
    requires
        lamda_from(t, p, mode) is Ok,
    ensures
        declared_count(t, nth_pos(t, p, 5)) == Ok::<usize, crate::text::IntErrorKind>(
            lamda_from(t, p, mode)->Ok_0.levels.len() as usize,
        ),
        declared_count(
            t,
            nth_pos(t, p, 8 + lamda_from(t, p, mode)->Ok_0.levels.len()),
        ) == Ok::<usize, crate::text::IntErrorKind>(
            lamda_from(t, p, mode)->Ok_0.radset.len() as usize,
        ),
{
    let d = lamda_from(t, p, mode)->Ok_0;
    let (name, weight, nlev, p5) = header_at(t, p)->Ok_0;
    let lrec = |l: Seq<char>| level_of(l, mode);
    let (levels, p6) = levels_from(t, after_line(t, p5), nlev as nat, mode, seq![])->Ok_0;
    lemma_records_len(t, after_line(t, p5), nlev as nat, Field::LevelId, lrec, seq![]);
    lemma_records_end(t, after_line(t, p5), nlev as nat, Field::LevelId, lrec, seq![]);
    let (nrad, p7) = count_at(t, p6, Field::RadCount)->Ok_0;
    let rrec = |l: Seq<char>| rad_of(l);
    lemma_records_len(t, after_line(t, p7), nrad as nat, Field::RadId, rrec, seq![]);
    // the header: name at line 1, weight at line 3, level count at line 5
    lemma_nth_pos_succ(t, p, 0);
    lemma_nth_pos_succ(t, p, 1);
    lemma_nth_pos_succ(t, p, 2);
    lemma_nth_pos_succ(t, p, 3);
    lemma_nth_pos_succ(t, p, 4);
    lemma_nth_pos_succ(t, p, 5);
    lemma_nth_pos_succ(t, p, 6);
    assert(p5 == nth_pos(t, p, 6));
    assert(declared_count(t, nth_pos(t, p, 5)) == Ok::<usize, crate::text::IntErrorKind>(nlev));
    // the levels run from line 7 to line 7 + nlev, the radiative count follows a skipped line
    assert(p6 == nth_pos(t, p, (7 + nlev) as nat)) by {
        lemma_nth_pos_add(t, p, 7, nlev as nat);
    }
    lemma_nth_pos_succ(t, p, (7 + nlev) as nat);
    assert(declared_count(t, nth_pos(t, p, (8 + nlev) as nat)) == Ok::<usize, crate::text::IntErrorKind>(
        nrad,
    ));
}

/// Every transition of the set has one rate per temperature of the set.
pub open spec fn rates_match(cs: CollSetModel) -> bool {
    forall|i: int|
        0 <= i < cs.transitions.len() ==> (#[trigger] cs.transitions[i]).rates.len()
            == cs.temps.len()
}

/// No two partner sets carry the same name.
pub open spec fn names_distinct(sets: Seq<(Seq<char>, CollSetModel)>) -> bool {
    forall|i: int, j: int| 0 <= i < j < sets.len() ==> #[trigger] sets[i].0 != #[trigger] sets[j].0
}

proof fn lemma_rates_len(ts: Seq<Seq<char>>, temps: Seq<Seq<char>>, k: int, acc: Seq<RateModel>)
    requires
        0 <= k <= temps.len(),
        rates_from(ts, temps, k, acc) is Ok,
    ensures
        rates_from(ts, temps, k, acc)->Ok_0.len() == acc.len() + temps.len() - k,
    decreases temps.len() - k,
{
    if k < temps.len() {
        let x = float_field_ok(ts, 3 + k);
        lemma_rates_len(ts, temps, k + 1, acc.push(RateModel { temp: temps[k], rate: x }));
    }
}

spec fn float_field_ok(ts: Seq<Seq<char>>, i: int) -> Seq<char> {
    crate::lamda::float_field(ts, i, Field::Rate)->Ok_0
}

proof fn lemma_partner_rates(t: Seq<char>, p: int)
    requires
        partner_at(t, p) is Ok,
    ensures
        rates_match(partner_at(t, p)->Ok_0.0.1),
{
    let p1 = after_line(t, p);
    let ts = tokens(line_from(t, p1)->Some_0);
    let name = partner_name_spec(ts[0])->Some_0;
    let (nc, p3) = count_at(t, after_line(t, p1), Field::CollCount)->Ok_0;
    let p4 = count_at(t, p3, Field::TempCount)->Ok_0.1;
    let p5 = after_line(t, p4);
    let temps = crate::lamda::temps_from(tokens(line_from(t, p5)->Some_0), 0, seq![])->Ok_0;
    let q = after_line(t, after_line(t, p5));
    let rec = |l: Seq<char>| coll_of(l, name, temps);
    let good = |x: CollTransModel| x.rates.len() == temps.len();
    assert forall|l: Seq<char>| (#[trigger] rec(l)) is Ok implies good(rec(l)->Ok_0) by {
        lemma_rates_len(tokens(l), temps, 0, seq![]);
    }
    lemma_records_all(t, q, nc as nat, Field::CollId, rec, seq![], good);
    let cs = partner_at(t, p)->Ok_0.0.1;
    assert forall|i: int| 0 <= i < cs.transitions.len() implies (
    #[trigger] cs.transitions[i]).rates.len() == cs.temps.len() by {
        assert(good(cs.transitions[i]));
    }
}

proof fn lemma_first_index(sets: Seq<(Seq<char>, CollSetModel)>, name: Seq<char>, i: int)
    requires
        0 <= i,
    ensures
        first_index(sets, name, i) == -1 ==> forall|j: int|
            i <= j < sets.len() ==> #[trigger] sets[j].0 != name,
        first_index(sets, name, i) != -1 ==> i <= first_index(sets, name, i) < sets.len()
            && sets[first_index(sets, name, i)].0 == name,
    decreases sets.len() - i,
{
    if i < sets.len() && sets[i].0 != name {
        lemma_first_index(sets, name, i + 1);
    }
}

proof fn lemma_insert_set(sets: Seq<(Seq<char>, CollSetModel)>, name: Seq<char>, cs: CollSetModel)
    ensures
        names_distinct(sets) ==> names_distinct(insert_set(sets, name, cs)),
        forall|i: int|
            0 <= i < insert_set(sets, name, cs).len() ==> #[trigger] insert_set(sets, name, cs)[i]
                == (name, cs) || (i < sets.len() && insert_set(sets, name, cs)[i] == sets[i]),
{
    lemma_first_index(sets, name, 0);
    let r = insert_set(sets, name, cs);
    if names_distinct(sets) {
        assert forall|i: int, j: int| 0 <= i < j < r.len() implies #[trigger] r[i].0
            != #[trigger] r[j].0 by {
            if first_index(sets, name, 0) == -1 {
                if j == sets.len() {
                    assert(sets[i].0 != name);
                }
            }
        }
    }
}

proof fn lemma_partners_facts(
    t: Seq<char>,
    p: int,
    n: nat,
    acc: Seq<(Seq<char>, CollSetModel)>,
)
    requires
        partners_from(t, p, n, acc) is Ok,
        names_distinct(acc),
        forall|i: int| 0 <= i < acc.len() ==> rates_match(#[trigger] acc[i].1),
    ensures
        names_distinct(partners_from(t, p, n, acc)->Ok_0.0),
        forall|i: int|
            0 <= i < partners_from(t, p, n, acc)->Ok_0.0.len() ==> rates_match(
                #[trigger] partners_from(t, p, n, acc)->Ok_0.0[i].1,
            ),
    decreases n,
{
    if n > 0 {
        let ((name, cs), q) = partner_at(t, p)->Ok_0;
        lemma_partner_rates(t, p);
        lemma_insert_set(acc, name, cs);
        let acc2 = insert_set(acc, name, cs);
        assert forall|i: int| 0 <= i < acc2.len() implies rates_match(#[trigger] acc2[i].1) by {
            if acc2[i] != (name, cs) {
                assert(rates_match(acc[i].1));
            }
        }
        lemma_partners_facts(t, q, (n - 1) as nat, acc2);
    }
}

/// In a catalogue that is read, every collisional transition has exactly one
/// rate per temperature of its partner's set.
pub proof fn lemma_rates_per_temperature(t: Seq<char>, p: int, mode: JColumn)
    requires
        lamda_from(t, p, mode) is Ok,
    ensures
        forall|k: int, i: int|
            0 <= k < lamda_from(t, p, mode)->Ok_0.collsets.len() && 0 <= i < lamda_from(
                t,
                p,
                mode,
            )->Ok_0.collsets[k].1.transitions.len() ==> (#[trigger] lamda_from(
                t,
                p,
                mode,
            )->Ok_0.collsets[k].1.transitions[i]).rates.len() == lamda_from(
                t,
                p,
                mode,
            )->Ok_0.collsets[k].1.temps.len(),
{
    lemma_lamda_sets(t, p, mode);
    let sets = lamda_from(t, p, mode)->Ok_0.collsets;
    assert forall|k: int, i: int|
        0 <= k < sets.len() && 0 <= i < sets[k].1.transitions.len() implies (
    #[trigger] sets[k].1.transitions[i]).rates.len() == sets[k].1.temps.len() by {
        assert(rates_match(sets[k].1));
    }
}

/// In a catalogue that is read, no partner name names two sets.
pub proof fn lemma_partner_names_unique(t: Seq<char>, p: int, mode: JColumn)
    requires
        lamda_from(t, p, mode) is Ok,
    ensures
        names_distinct(lamda_from(t, p, mode)->Ok_0.collsets),
{
    lemma_lamda_sets(t, p, mode);
}

proof fn lemma_lamda_sets(t: Seq<char>, p: int, mode: JColumn)
    requires
        lamda_from(t, p, mode) is Ok,
    ensures
        names_distinct(lamda_from(t, p, mode)->Ok_0.collsets),
        forall|k: int|
            0 <= k < lamda_from(t, p, mode)->Ok_0.collsets.len() ==> rates_match(
                #[trigger] lamda_from(t, p, mode)->Ok_0.collsets[k].1,
            ),
{
    let (name, weight, nlev, p5) = header_at(t, p)->Ok_0;
    let p6 = levels_from(t, after_line(t, p5), nlev as nat, mode, seq![])->Ok_0.1;
    let p7 = count_at(t, p6, Field::RadCount)->Ok_0.1;
    let p8 = crate::lamda::rads_from(t, after_line(t, p7), count_at(t, p6, Field::RadCount)->Ok_0.0 as nat, seq![])->Ok_0.1;
    let (npart, p9) = count_at(t, p8, Field::PartnerCount)->Ok_0;
    lemma_partners_facts(t, p9, npart as nat, seq![]);
}

proof fn lemma_records_eof<T>(
    t: Seq<char>,
    p: int,
    n: nat,
    f: Field,
    rec: spec_fn(Seq<char>) -> Result<T, LAMDAError>,
    acc: Seq<T>,
    k: nat,
)
    requires
        k < n,
        nth_pos(t, p, k) >= t.len(),
        forall|j: nat| j < k ==> (#[trigger] rec(line_at(t, nth_pos(t, p, j)))) is Ok,
    ensures
        records_from(t, p, n, f, rec, acc) == Err::<(Seq<T>, int), LAMDAError>(
            LAMDAError::ParseError(ParseFault::UnexpectedEof(f)),
        ),
    decreases k,
{
    if k > 0 && p < t.len() {
        let q = after_line(t, p);
        assert(rec(line_at(t, nth_pos(t, p, 0))) is Ok);
        let x = rec(line_at(t, p))->Ok_0;
        assert forall|j: nat| j < (k - 1) as nat implies (#[trigger] rec(
            line_at(t, nth_pos(t, q, j)),
        )) is Ok by {
            assert(nth_pos(t, p, j + 1) == nth_pos(t, q, j));
            assert(rec(line_at(t, nth_pos(t, p, j + 1))) is Ok);
        }
        lemma_records_eof(t, q, (n - 1) as nat, f, rec, acc.push(x), (k - 1) as nat);
    }
}

/// A text that ends before the levels that its header declares are all
/// there fails with an end-of-input error, where each level line that it
/// does hold is a valid record: it never yields a short list of levels.
pub proof fn lemma_truncated_levels(t: Seq<char>, p: int, mode: JColumn, k: nat)
    requires
        header_at(t, p) is Ok,
        k < header_at(t, p)->Ok_0.2,
        nth_pos(t, after_line(t, header_at(t, p)->Ok_0.3), k) >= t.len(),
        forall|j: nat|
            j < k ==> (#[trigger] level_of(
                line_at(t, nth_pos(t, after_line(t, header_at(t, p)->Ok_0.3), j)),
                mode,
            )) is Ok,
    ensures
        lamda_from(t, p, mode) == Err::<LAMDAModel, LAMDAError>(
            LAMDAError::ParseError(ParseFault::UnexpectedEof(Field::LevelId)),
        ),
{
    let (name, weight, nlev, p5) = header_at(t, p)->Ok_0;
    let q = after_line(t, p5);
    let rec = |l: Seq<char>| level_of(l, mode);
    assert forall|j: nat| j < k implies (#[trigger] rec(line_at(t, nth_pos(t, q, j)))) is Ok by {
        assert(level_of(line_at(t, nth_pos(t, q, j)), mode) is Ok);
    }
    lemma_records_eof(t, q, nlev as nat, Field::LevelId, rec, seq![], k);
}

/// A partner block whose code is not in the table of partners fails with
/// an invalid-partner error.
pub proof fn lemma_unknown_partner(t: Seq<char>, p: int)
    requires
        line_from(t, after_line(t, p)) is Some,
        tokens(line_from(t, after_line(t, p))->Some_0).len() > 0,
        partner_name_spec(tokens(line_from(t, after_line(t, p))->Some_0)[0]) is None,
    ensures
        partner_at(t, p) == Err::<((Seq<char>, CollSetModel), int), LAMDAError>(
            LAMDAError::ParseError(ParseFault::InvalidPartnerId),
        ),
{
}

} // verus!
