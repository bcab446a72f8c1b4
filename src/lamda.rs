//! Reader for the Leiden Atomic and Molecular Database (LAMDA) file format.
//!
//! Floating-point data are kept as the literal text of the file, checked to
//! be well-formed literals; integers are read as `usize`.
use vstd::prelude::*;

use crate::errors::{Field, LAMDAError, ParseFault};
use crate::io::{after_line, line_from, LineReader};
use crate::text::{
    check_float, float_check_spec, parse_usize, parse_usize_spec, split_tokens, string_of,
    tokens, trim, trimmed,
};

verus! {

/// An energy level of the molecule.
#[derive(Clone, Debug)]
pub struct Level {
    /// ID of the level
    pub id: usize,
    /// Energy of the level in cm^-1, as written
    pub energy: String,
    /// Statistical weight (degeneracy) of the level, as written
    pub weight: String,
    /// Total angular momentum quantum number of the level
    pub j: usize,
}

/// A radiative transition between two levels.
#[derive(Clone, Debug)]
pub struct RadTransition {
    /// ID of the transition
    pub id: usize,
    /// Upper level ID
    pub up: usize,
    /// Lower level ID
    pub low: usize,
    /// Einstein A coefficient (s^-1), as written
    pub einst_a: String,
    /// Frequency of the transition (GHz), as written
    pub freq: String,
    /// Energy of the upper state (K), as written
    pub energy: String,
}

/// A collisional rate coefficient at one temperature.
#[derive(Clone, Debug)]
pub struct CollRate {
    pub temp: String,
    pub rate: String,
}

/// A collisional transition, with one rate for each temperature of its set.
#[derive(Clone, Debug)]
pub struct ColliTransition {
    pub partner: String,
    pub id: usize,
    pub up: usize,
    pub low: usize,
    pub coll_rates: Vec<CollRate>,
}

/// The collisional data of one partner.
#[derive(Clone, Debug)]
pub struct CollSet {
    pub temps: Vec<String>,
    pub coll_transitions: Vec<ColliTransition>,
}

/// A molecule's catalogue entry.
#[derive(Clone, Debug)]
pub struct LAMDAData {
    pub name: String,
    pub weight: String,
    pub levels: Vec<Level>,
    pub radset: Vec<RadTransition>,
    /// One entry per collision partner name; no name occurs twice.
    pub collsets: Vec<(String, CollSet)>,
}

/// Whether the quantum number `j` of a level record may be left out.
#[derive(PartialEq, Eq, Structural, Clone, Copy, Debug)]
pub enum JColumn {
    /// `j` may be absent; an absent or unreadable `j` counts as 0.
    Optional,
    /// `j` must be present and be an unsigned integer.
    Required,
}

/// The content of a [`Level`]: floating-point data as their literals.
pub struct LevelModel {
    pub id: usize,
    pub energy: Seq<char>,
    pub weight: Seq<char>,
    pub j: usize,
}

/// The content of a [`RadTransition`].
pub struct RadModel {
    pub id: usize,
    pub up: usize,
    pub low: usize,
    pub einst_a: Seq<char>,
    pub freq: Seq<char>,
    pub energy: Seq<char>,
}

/// The content of a [`CollRate`].
pub struct RateModel {
    pub temp: Seq<char>,
    pub rate: Seq<char>,
}

/// The content of a [`ColliTransition`].
pub struct CollTransModel {
    pub partner: Seq<char>,
    pub id: usize,
    pub up: usize,
    pub low: usize,
    pub rates: Seq<RateModel>,
}

/// The content of a [`CollSet`].
pub struct CollSetModel {
    pub temps: Seq<Seq<char>>,
    pub transitions: Seq<CollTransModel>,
}

/// The content of a [`LAMDAData`]; `collsets` pairs each partner name with its set.
pub struct LAMDAModel {
    pub name: Seq<char>,
    pub weight: Seq<char>,
    pub levels: Seq<LevelModel>,
    pub radset: Seq<RadModel>,
    pub collsets: Seq<(Seq<char>, CollSetModel)>,
}

impl View for Level {
    type V = LevelModel;

    open spec fn view(&self) -> LevelModel {
        LevelModel { id: self.id, energy: self.energy@, weight: self.weight@, j: self.j }
    }
}

impl View for RadTransition {
    type V = RadModel;

    open spec fn view(&self) -> RadModel {
        RadModel {
            id: self.id,
            up: self.up,
            low: self.low,
            einst_a: self.einst_a@,
            freq: self.freq@,
            energy: self.energy@,
        }
    }
}

impl View for CollRate {
    type V = RateModel;

    open spec fn view(&self) -> RateModel {
        RateModel { temp: self.temp@, rate: self.rate@ }
    }
}

impl View for ColliTransition {
    type V = CollTransModel;

    open spec fn view(&self) -> CollTransModel {
        CollTransModel {
            partner: self.partner@,
            id: self.id,
            up: self.up,
            low: self.low,
            rates: self.coll_rates@.map_values(|r: CollRate| r@),
        }
    }
}

impl View for CollSet {
    type V = CollSetModel;

    open spec fn view(&self) -> CollSetModel {
        CollSetModel {
            temps: self.temps@.map_values(|s: String| s@),
            transitions: self.coll_transitions@.map_values(|t: ColliTransition| t@),
        }
    }
}

impl View for LAMDAData {
    type V = LAMDAModel;

    open spec fn view(&self) -> LAMDAModel {
        LAMDAModel {
            name: self.name@,
            weight: self.weight@,
            levels: self.levels@.map_values(|l: Level| l@),
            radset: self.radset@.map_values(|r: RadTransition| r@),
            collsets: self.collsets@.map_values(|e: (String, CollSet)| (e.0@, e.1@)),
        }
    }
}

/// A result with its value replaced by the value's view.
pub open spec fn res_view<T: View>(r: Result<T, LAMDAError>) -> Result<T::V, LAMDAError> {
    match r {
        Ok(v) => Ok(v@),
        Err(e) => Err(e),
    }
}

/// The unsigned integer token `tok`, read as datum `f`.
pub open spec fn int_of(tok: Seq<char>, f: Field) -> Result<usize, LAMDAError> {
    match parse_usize_spec(tok) {
        Ok(n) => Ok(n),
        Err(k) => Err(LAMDAError::ParseInt(f, k)),
    }
}

/// The floating-point token `tok`, checked as datum `f`.
pub open spec fn float_of(tok: Seq<char>, f: Field) -> Result<Seq<char>, LAMDAError> {
    match float_check_spec(tok) {
        Ok(_) => Ok(tok),
        Err(k) => Err(LAMDAError::ParseFloat(f, k)),
    }
}

/// The integer in token `i` of `ts`, read as datum `f`.
pub open spec fn int_field(ts: Seq<Seq<char>>, i: int, f: Field) -> Result<usize, LAMDAError> {
    if 0 <= i < ts.len() {
        int_of(ts[i], f)
    } else {
        Err(LAMDAError::ParseError(ParseFault::MissingField(f)))
    }
}

/// The floating-point literal in token `i` of `ts`, read as datum `f`.
pub open spec fn float_field(ts: Seq<Seq<char>>, i: int, f: Field) -> Result<
    Seq<char>,
    LAMDAError,
> {
    if 0 <= i < ts.len() {
        float_of(ts[i], f)
    } else {
        Err(LAMDAError::ParseError(ParseFault::MissingField(f)))
    }
}

/// The quantum number `j` of a level record.
pub open spec fn j_field(ts: Seq<Seq<char>>, mode: JColumn) -> Result<usize, LAMDAError> {
    match mode {
        JColumn::Required => int_field(ts, 3, Field::LevelJ),
        JColumn::Optional => if 3 < ts.len() {
            match parse_usize_spec(ts[3]) {
                Ok(j) => Ok(j),
                Err(_) => Ok(0),
            }
        } else {
            Ok(0)
        },
    }
}

/// A level record: `id energy weight [j]`.
pub open spec fn level_of(l: Seq<char>, mode: JColumn) -> Result<LevelModel, LAMDAError> {
    let ts = tokens(l);
    match int_field(ts, 0, Field::LevelId) {
        Err(e) => Err(e),
        Ok(id) => match float_field(ts, 1, Field::LevelEnergy) {
            Err(e) => Err(e),
            Ok(energy) => match float_field(ts, 2, Field::LevelWeight) {
                Err(e) => Err(e),
                Ok(weight) => match j_field(ts, mode) {
                    Err(e) => Err(e),
                    Ok(j) => Ok(LevelModel { id, energy, weight, j }),
                },
            },
        },
    }
}

/// A radiative transition record: `id up low einst_a freq energy`.
pub open spec fn rad_of(l: Seq<char>) -> Result<RadModel, LAMDAError> {
    let ts = tokens(l);
    match int_field(ts, 0, Field::RadId) {
        Err(e) => Err(e),
        Ok(id) => match int_field(ts, 1, Field::RadUp) {
            Err(e) => Err(e),
            Ok(up) => match int_field(ts, 2, Field::RadLow) {
                Err(e) => Err(e),
                Ok(low) => match float_field(ts, 3, Field::EinsteinA) {
                    Err(e) => Err(e),
                    Ok(einst_a) => match float_field(ts, 4, Field::Frequency) {
                        Err(e) => Err(e),
                        Ok(freq) => match float_field(ts, 5, Field::RadEnergy) {
                            Err(e) => Err(e),
                            Ok(energy) => Ok(RadModel { id, up, low, einst_a, freq, energy }),
                        },
                    },
                },
            },
        },
    }
}

fn int_token(ts: &Vec<Vec<char>>, i: usize, f: Field) -> (r: Result<usize, LAMDAError>)
    ensures
        r == int_field(ts@.map_values(|t: Vec<char>| t@), i as int, f),
{
    if i < ts.len() {
        match parse_usize(&ts[i]) {
            Ok(n) => Ok(n),
            Err(k) => Err(LAMDAError::ParseInt(f, k)),
        }
    } else {
        Err(LAMDAError::ParseError(ParseFault::MissingField(f)))
    }
}

fn float_text(tok: &Vec<char>, f: Field) -> (r: Result<String, LAMDAError>)
    ensures
        res_view(r) == float_of(tok@, f),
{
    match check_float(tok) {
        Ok(_) => {
            let s = string_of(tok, 0, tok.len());
            assert(tok@.subrange(0, tok@.len() as int) =~= tok@);
            Ok(s)
        },
        Err(k) => Err(LAMDAError::ParseFloat(f, k)),
    }
}

fn float_token(ts: &Vec<Vec<char>>, i: usize, f: Field) -> (r: Result<String, LAMDAError>)
    ensures
        res_view(r) == float_field(ts@.map_values(|t: Vec<char>| t@), i as int, f),
{
    if i < ts.len() {
        float_text(&ts[i], f)
    } else {
        Err(LAMDAError::ParseError(ParseFault::MissingField(f)))
    }
}

/// Reads a level record.
pub fn parse_level(l: &Vec<char>, mode: JColumn) -> (r: Result<Level, LAMDAError>)
    ensures
        res_view(r) == level_of(l@, mode),
{
    let ts = split_tokens(l);
    let ghost tv = ts@.map_values(|t: Vec<char>| t@);
    let id = match int_token(&ts, 0, Field::LevelId) {
        Ok(v) => v,
        Err(e) => return Err(e),
    };
    let energy = match float_token(&ts, 1, Field::LevelEnergy) {
        Ok(v) => v,
        Err(e) => return Err(e),
    };
    let weight = match float_token(&ts, 2, Field::LevelWeight) {
        Ok(v) => v,
        Err(e) => return Err(e),
    };
    let j = match mode {
        JColumn::Required => match int_token(&ts, 3, Field::LevelJ) {
            Ok(v) => v,
            Err(e) => return Err(e),
        },
        JColumn::Optional => if 3 < ts.len() {
            match parse_usize(&ts[3]) {
                Ok(v) => v,
                Err(_) => 0,
            }
        } else {
            0
        },
    };
    proof {
        if 3 < ts.len() {
            assert(tv[3] == ts@[3]@);
        }
    }
    Ok(Level { id, energy, weight, j })
}

/// Reads a radiative transition record.
pub fn parse_rad(l: &Vec<char>) -> (r: Result<RadTransition, LAMDAError>)
    ensures
        res_view(r) == rad_of(l@),
{
    let ts = split_tokens(l);
    let id = match int_token(&ts, 0, Field::RadId) {
        Ok(v) => v,
        Err(e) => return Err(e),
    };
    let up = match int_token(&ts, 1, Field::RadUp) {
        Ok(v) => v,
        Err(e) => return Err(e),
    };
    let low = match int_token(&ts, 2, Field::RadLow) {
        Ok(v) => v,
        Err(e) => return Err(e),
    };
    let einst_a = match float_token(&ts, 3, Field::EinsteinA) {
        Ok(v) => v,
        Err(e) => return Err(e),
    };
    let freq = match float_token(&ts, 4, Field::Frequency) {
        Ok(v) => v,
        Err(e) => return Err(e),
    };
    let energy = match float_token(&ts, 5, Field::RadEnergy) {
        Ok(v) => v,
        Err(e) => return Err(e),
    };
    Ok(RadTransition { id, up, low, einst_a, freq, energy })
}

/// Skips one line at `p`, then reads an unsigned count as datum `f`.
pub open spec fn count_at(t: Seq<char>, p: int, f: Field) -> Result<(usize, int), LAMDAError> {
    let q = after_line(t, p);
    match line_from(t, q) {
        None => Err(LAMDAError::ParseError(ParseFault::UnexpectedEof(f))),
        Some(l) => match int_of(trim(l), f) {
            Err(e) => Err(e),
            Ok(n) => Ok((n, after_line(t, q))),
        },
    }
}

/// Reads `n` more records from `p` on, one per line, after those in `acc`;
/// `f` names the datum that a missing line lacks.
pub open spec fn records_from<T>(
    t: Seq<char>,
    p: int,
    n: nat,
    f: Field,
    rec: spec_fn(Seq<char>) -> Result<T, LAMDAError>,
    acc: Seq<T>,
) -> Result<(Seq<T>, int), LAMDAError>
    decreases n,
{
    if n == 0 {
        Ok((acc, p))
    } else {
        match line_from(t, p) {
            None => Err(LAMDAError::ParseError(ParseFault::UnexpectedEof(f))),
            Some(l) => match rec(l) {
                Err(e) => Err(e),
                Ok(x) => records_from(t, after_line(t, p), (n - 1) as nat, f, rec, acc.push(x)),
            },
        }
    }
}

/// `n` more level records from `p` on.
pub open spec fn levels_from(
    t: Seq<char>,
    p: int,
    n: nat,
    mode: JColumn,
    acc: Seq<LevelModel>,
) -> Result<(Seq<LevelModel>, int), LAMDAError> {
    records_from(t, p, n, Field::LevelId, |l: Seq<char>| level_of(l, mode), acc)
}

/// `n` more radiative transition records from `p` on.
pub open spec fn rads_from(t: Seq<char>, p: int, n: nat, acc: Seq<RadModel>) -> Result<
    (Seq<RadModel>, int),
    LAMDAError,
> {
    records_from(t, p, n, Field::RadId, |l: Seq<char>| rad_of(l), acc)
}

/// A batch of records adds exactly `n` to those already read.
pub proof fn lemma_records_len<T>(
    t: Seq<char>,
    p: int,
    n: nat,
    f: Field,
    rec: spec_fn(Seq<char>) -> Result<T, LAMDAError>,
    acc: Seq<T>,
)
    requires
        records_from(t, p, n, f, rec, acc) is Ok,
    ensures
        records_from(t, p, n, f, rec, acc)->Ok_0.0.len() == acc.len() + n,
    decreases n,
{
    if n > 0 {
        let x = rec(line_from(t, p)->Some_0)->Ok_0;
        lemma_records_len(t, after_line(t, p), (n - 1) as nat, f, rec, acc.push(x));
    }
}

/// Where every record that `rec` yields has property `good`, so has every
/// record of a batch.
pub proof fn lemma_records_all<T>(
    t: Seq<char>,
    p: int,
    n: nat,
    f: Field,
    rec: spec_fn(Seq<char>) -> Result<T, LAMDAError>,
    acc: Seq<T>,
    good: spec_fn(T) -> bool,
)
    requires
        records_from(t, p, n, f, rec, acc) is Ok,
        forall|l: Seq<char>| (#[trigger] rec(l)) is Ok ==> good(rec(l)->Ok_0),
        forall|i: int| 0 <= i < acc.len() ==> good(#[trigger] acc[i]),
    ensures
        forall|i: int|
            0 <= i < records_from(t, p, n, f, rec, acc)->Ok_0.0.len() ==> good(
                #[trigger] records_from(t, p, n, f, rec, acc)->Ok_0.0[i],
            ),
    decreases n,
{
    if n > 0 {
        let l = line_from(t, p)->Some_0;
        let x = rec(l)->Ok_0;
        assert(good(x));
        let acc2 = acc.push(x);
        assert forall|i: int| 0 <= i < acc2.len() implies good(#[trigger] acc2[i]) by {
            if i < acc.len() {
                assert(acc2[i] == acc[i]);
            }
        }
        lemma_records_all(t, after_line(t, p), (n - 1) as nat, f, rec, acc2, good);
    }
}

/// Reads the next line, which the layout requires; `f` names its datum.
fn required_line(reader: &mut LineReader, f: Field) -> (r: Result<Vec<char>, LAMDAError>)
    requires
        old(reader).wf(),
    ensures
        final(reader).wf(),
        final(reader).text() == old(reader).text(),
        final(reader).pos() == after_line(old(reader).text(), old(reader).pos()),
        match line_from(old(reader).text(), old(reader).pos()) {
            None => r == Err::<Vec<char>, LAMDAError>(
                LAMDAError::ParseError(ParseFault::UnexpectedEof(f)),
            ),
            Some(l) => r matches Ok(v) && v@ == l,
        },
{
    match reader.next_chars() {
        Some(l) => Ok(l),
        None => Err(LAMDAError::ParseError(ParseFault::UnexpectedEof(f))),
    }
}

/// Skips one line, then reads an unsigned count as datum `f`.
fn read_count(reader: &mut LineReader, f: Field) -> (r: Result<usize, LAMDAError>)
    requires
        old(reader).wf(),
    ensures
        final(reader).wf(),
        final(reader).text() == old(reader).text(),
        match count_at(old(reader).text(), old(reader).pos(), f) {
            Ok((n, q)) => r == Ok::<usize, LAMDAError>(n) && final(reader).pos() == q,
            Err(e) => r == Err::<usize, LAMDAError>(e),
        },
{
    let mut buf = String::new();
    crate::io::skip_line(reader, &mut buf);
    let l = match required_line(reader, f) {
        Ok(l) => l,
        Err(e) => return Err(e),
    };
    match parse_usize(&trimmed(&l)) {
        Ok(n) => Ok(n),
        Err(k) => Err(LAMDAError::ParseInt(f, k)),
    }
}

/// Reads `n` level records.
fn read_levels(reader: &mut LineReader, n: usize, mode: JColumn) -> (r: Result<
    Vec<Level>,
    LAMDAError,
>)
    requires
        old(reader).wf(),
    ensures
        final(reader).wf(),
        final(reader).text() == old(reader).text(),
        match levels_from(old(reader).text(), old(reader).pos(), n as nat, mode, seq![]) {
            Ok((ls, q)) => r matches Ok(v) && v@.map_values(|x: Level| x@) == ls
                && final(reader).pos() == q,
            Err(e) => r == Err::<Vec<Level>, LAMDAError>(e),
        },
{
    let ghost t = reader.text();
    let ghost p0 = reader.pos();
    let mut out: Vec<Level> = Vec::new();
    let mut i: usize = 0;
    assert(out@.map_values(|x: Level| x@) =~= seq![]);
    while i < n
        invariant
            i <= n,
            reader.wf(),
            reader.text() == t,
            t == old(reader).text(),
            p0 == old(reader).pos(),
            levels_from(t, reader.pos(), (n - i) as nat, mode, out@.map_values(|x: Level| x@))
                == levels_from(t, p0, n as nat, mode, seq![]),
        decreases n - i,
    {
        let l = match required_line(reader, Field::LevelId) {
            Ok(l) => l,
            Err(e) => return Err(e),
        };
        let lv = match parse_level(&l, mode) {
            Ok(lv) => lv,
            Err(e) => return Err(e),
        };
        let ghost before = out@.map_values(|x: Level| x@);
        out.push(lv);
        assert(out@.map_values(|x: Level| x@) =~= before.push(lv@));
        i = i + 1;
    }
    assert(out@.map_values(|x: Level| x@) == seq![].add(out@.map_values(|x: Level| x@)));
    Ok(out)
}

/// Reads `n` radiative transition records.
fn read_rads(reader: &mut LineReader, n: usize) -> (r: Result<Vec<RadTransition>, LAMDAError>)
    requires
        old(reader).wf(),
    ensures
        final(reader).wf(),
        final(reader).text() == old(reader).text(),
        match rads_from(old(reader).text(), old(reader).pos(), n as nat, seq![]) {
            Ok((rs, q)) => r matches Ok(v) && v@.map_values(|x: RadTransition| x@) == rs
                && final(reader).pos() == q,
            Err(e) => r == Err::<Vec<RadTransition>, LAMDAError>(e),
        },
{
    let ghost t = reader.text();
    let ghost p0 = reader.pos();
    let mut out: Vec<RadTransition> = Vec::new();
    let mut i: usize = 0;
    assert(out@.map_values(|x: RadTransition| x@) =~= seq![]);
    while i < n
        invariant
            i <= n,
            reader.wf(),
            reader.text() == t,
            t == old(reader).text(),
            p0 == old(reader).pos(),
            rads_from(t, reader.pos(), (n - i) as nat, out@.map_values(|x: RadTransition| x@))
                == rads_from(t, p0, n as nat, seq![]),
        decreases n - i,
    {
        let l = match required_line(reader, Field::RadId) {
            Ok(l) => l,
            Err(e) => return Err(e),
        };
        let rt = match parse_rad(&l) {
            Ok(rt) => rt,
            Err(e) => return Err(e),
        };
        let ghost before = out@.map_values(|x: RadTransition| x@);
        out.push(rt);
        assert(out@.map_values(|x: RadTransition| x@) =~= before.push(rt@));
        i = i + 1;
    }
    Ok(out)
}

/// The partner name that a partner code stands for.
pub open spec fn partner_name_spec(tok: Seq<char>) -> Option<Seq<char>> {
    if tok == seq!['1'] {
        Some(seq!['H', '2'])
    } else if tok == seq!['2'] {
        Some(seq!['p', '-', 'H', '2'])
    } else if tok == seq!['3'] {
        Some(seq!['o', '-', 'H', '2'])
    } else if tok == seq!['4'] {
        Some(seq!['e'])
    } else if tok == seq!['5'] {
        Some(seq!['H'])
    } else if tok == seq!['6'] {
        Some(seq!['H', 'e'])
    } else if tok == seq!['7'] {
        Some(seq!['H', '+'])
    } else {
        None
    }
}

/// Looks up the collision partner that a partner code stands for.
pub fn partner_name(tok: &Vec<char>) -> (r: Option<String>)
    ensures
        match partner_name_spec(tok@) {
            Some(n) => r matches Some(s) && s@ == n,
            None => r is None,
        },
{
    if tok.len() != 1 {
        proof {
            assert(tok@.len() != 1);
            assert(tok@ != seq!['1'] && tok@ != seq!['2'] && tok@ != seq!['3'] && tok@ != seq!['4']);
            assert(tok@ != seq!['5'] && tok@ != seq!['6'] && tok@ != seq!['7']);
        }
        return None;
    }
    let c = tok[0];
    assert(tok@ =~= seq![c]);
    let name: Vec<char> = if c == '1' {
        vec!['H', '2']
    } else if c == '2' {
        vec!['p', '-', 'H', '2']
    } else if c == '3' {
        vec!['o', '-', 'H', '2']
    } else if c == '4' {
        vec!['e']
    } else if c == '5' {
        vec!['H']
    } else if c == '6' {
        vec!['H', 'e']
    } else if c == '7' {
        vec!['H', '+']
    } else {
        return None;
    };
    let s = string_of(&name, 0, name.len());
    assert(name@.subrange(0, name@.len() as int) =~= name@);
    assert(name@ =~= partner_name_spec(tok@)->Some_0);
    Some(s)
}

/// The temperatures on a line: every token a floating-point literal.
pub open spec fn temps_from(ts: Seq<Seq<char>>, k: int, acc: Seq<Seq<char>>) -> Result<
    Seq<Seq<char>>,
    LAMDAError,
>
    decreases ts.len() - k,
{
    if k < 0 || k >= ts.len() {
        Ok(acc)
    } else {
        match float_of(ts[k], Field::Temperature) {
            Err(e) => Err(e),
            Ok(x) => temps_from(ts, k + 1, acc.push(x)),
        }
    }
}

/// The rates of a collisional record from index `k` of `temps` on, rate `k`
/// standing in token `3 + k` and paired with temperature `k`.
pub open spec fn rates_from(
    ts: Seq<Seq<char>>,
    temps: Seq<Seq<char>>,
    k: int,
    acc: Seq<RateModel>,
) -> Result<Seq<RateModel>, LAMDAError>
    decreases temps.len() - k,
{
    if k < 0 || k >= temps.len() {
        Ok(acc)
    } else {
        match float_field(ts, 3 + k, Field::Rate) {
            Err(e) => Err(e),
            Ok(x) => rates_from(ts, temps, k + 1, acc.push(RateModel { temp: temps[k], rate: x })),
        }
    }
}

/// A collisional transition record: `id up low rate_1 ... rate_n`, one rate
/// per temperature; tokens past the last rate are not read.
pub open spec fn coll_of(l: Seq<char>, partner: Seq<char>, temps: Seq<Seq<char>>) -> Result<
    CollTransModel,
    LAMDAError,
> {
    let ts = tokens(l);
    match int_field(ts, 0, Field::CollId) {
        Err(e) => Err(e),
        Ok(id) => match int_field(ts, 1, Field::CollUp) {
            Err(e) => Err(e),
            Ok(up) => match int_field(ts, 2, Field::CollLow) {
                Err(e) => Err(e),
                Ok(low) => match rates_from(ts, temps, 0, seq![]) {
                    Err(e) => Err(e),
                    Ok(rates) => Ok(CollTransModel { partner, id, up, low, rates }),
                },
            },
        },
    }
}

/// `n` more collisional transition records of one partner from `p` on.
pub open spec fn colls_from(
    t: Seq<char>,
    p: int,
    n: nat,
    partner: Seq<char>,
    temps: Seq<Seq<char>>,
    acc: Seq<CollTransModel>,
) -> Result<(Seq<CollTransModel>, int), LAMDAError> {
    records_from(t, p, n, Field::CollId, |l: Seq<char>| coll_of(l, partner, temps), acc)
}

fn read_temps(l: &Vec<char>) -> (r: Result<Vec<String>, LAMDAError>)
    ensures
        match temps_from(tokens(l@), 0, seq![]) {
            Ok(ts) => r matches Ok(v) && v@.map_values(|s: String| s@) == ts,
            Err(e) => r == Err::<Vec<String>, LAMDAError>(e),
        },
{
    let ts = split_tokens(l);
    let ghost tv = ts@.map_values(|t: Vec<char>| t@);
    let mut out: Vec<String> = Vec::new();
    let mut k: usize = 0;
    assert(out@.map_values(|s: String| s@) =~= seq![]);
    while k < ts.len()
        invariant
            k <= ts.len(),
            tv == tokens(l@),
            tv == ts@.map_values(|t: Vec<char>| t@),
            temps_from(tv, k as int, out@.map_values(|s: String| s@)) == temps_from(
                tv,
                0,
                seq![],
            ),
        decreases ts.len() - k,
    {
        let x = match float_text(&ts[k], Field::Temperature) {
            Ok(x) => x,
            Err(e) => return Err(e),
        };
        let ghost before = out@.map_values(|s: String| s@);
        out.push(x);
        assert(out@.map_values(|s: String| s@) =~= before.push(x@));
        k = k + 1;
    }
    Ok(out)
}

/// Reads a collisional transition record of `partner`, whose temperatures are `temps`.
pub fn parse_coll(l: &Vec<char>, partner: &String, temps: &Vec<String>) -> (r: Result<
    ColliTransition,
    LAMDAError,
>)
    ensures
        res_view(r) == coll_of(l@, partner@, temps@.map_values(|s: String| s@)),
{
    let ghost tps = temps@.map_values(|s: String| s@);
    let ts = split_tokens(l);
    let ghost tv = ts@.map_values(|t: Vec<char>| t@);
    let id = match int_token(&ts, 0, Field::CollId) {
        Ok(v) => v,
        Err(e) => return Err(e),
    };
    let up = match int_token(&ts, 1, Field::CollUp) {
        Ok(v) => v,
        Err(e) => return Err(e),
    };
    let low = match int_token(&ts, 2, Field::CollLow) {
        Ok(v) => v,
        Err(e) => return Err(e),
    };
    let mut rates: Vec<CollRate> = Vec::new();
    let mut k: usize = 0;
    assert(rates@.map_values(|x: CollRate| x@) =~= seq![]);
    while k < temps.len()
        invariant
            k <= temps.len(),
            tv == tokens(l@),
            tv == ts@.map_values(|t: Vec<char>| t@),
            tps == temps@.map_values(|s: String| s@),
            int_field(tv, 0, Field::CollId) == Ok::<usize, LAMDAError>(id),
            int_field(tv, 1, Field::CollUp) == Ok::<usize, LAMDAError>(up),
            int_field(tv, 2, Field::CollLow) == Ok::<usize, LAMDAError>(low),
            rates_from(tv, tps, k as int, rates@.map_values(|x: CollRate| x@)) == rates_from(
                tv,
                tps,
                0,
                seq![],
            ),
        decreases temps.len() - k,
    {
        if k > usize::MAX - 3 {
            // a line cannot hold this many tokens
            assert(tv.len() <= 3 + k);
            return Err(LAMDAError::ParseError(ParseFault::MissingField(Field::Rate)));
        }
        let x = match float_token(&ts, 3 + k, Field::Rate) {
            Ok(x) => x,
            Err(e) => return Err(e),
        };
        let ghost before = rates@.map_values(|x: CollRate| x@);
        let cr = CollRate { temp: temps[k].clone(), rate: x };
        rates.push(cr);
        assert(rates@.map_values(|x: CollRate| x@) =~= before.push(
            RateModel { temp: tps[k as int], rate: x@ },
        ));
        k = k + 1;
    }
    Ok(ColliTransition { partner: partner.clone(), id, up, low, coll_rates: rates })
}

/// The block of one collision partner at `p`: after a skipped line, the
/// partner code line, the transition count, the temperature count (checked,
/// then not used), the temperatures and, after one more skipped line, the
/// transition records; each count and the temperatures follow a skipped line.
pub open spec fn partner_at(t: Seq<char>, p: int) -> Result<
    ((Seq<char>, CollSetModel), int),
    LAMDAError,
> {
    let p1 = after_line(t, p);
    match line_from(t, p1) {
        None => Err(LAMDAError::ParseError(ParseFault::UnexpectedEof(Field::PartnerId))),
        Some(lid) => {
            let ts = tokens(lid);
            if ts.len() == 0 {
                Err(LAMDAError::ParseError(ParseFault::MissingField(Field::PartnerId)))
            } else {
                match partner_name_spec(ts[0]) {
                    None => Err(LAMDAError::ParseError(ParseFault::InvalidPartnerId)),
                    Some(name) => match count_at(t, after_line(t, p1), Field::CollCount) {
                        Err(e) => Err(e),
                        Ok((nc, p3)) => match count_at(t, p3, Field::TempCount) {
                            Err(e) => Err(e),
                            Ok((_, p4)) => {
                                let p5 = after_line(t, p4);
                                match line_from(t, p5) {
                                    None => Err(
                                        LAMDAError::ParseError(
                                            ParseFault::UnexpectedEof(Field::Temperature),
                                        ),
                                    ),
                                    Some(tl) => match temps_from(tokens(tl), 0, seq![]) {
                                        Err(e) => Err(e),
                                        Ok(temps) => match colls_from(
                                            t,
                                            after_line(t, after_line(t, p5)),
                                            nc as nat,
                                            name,
                                            temps,
                                            seq![],
                                        ) {
                                            Err(e) => Err(e),
                                            Ok((trs, q)) => Ok(
                                                (
                                                    (
                                                        name,
                                                        CollSetModel { temps, transitions: trs },
                                                    ),
                                                    q,
                                                ),
                                            ),
                                        },
                                    },
                                }
                            },
                        },
                    },
                }
            }
        },
    }
}

/// Index of the first entry from `i` on whose name is `name`, or -1.
pub open spec fn first_index(sets: Seq<(Seq<char>, CollSetModel)>, name: Seq<char>, i: int) -> int
    decreases sets.len() - i,
{
    if i < 0 || i >= sets.len() {
        -1
    } else if sets[i].0 == name {
        i
    } else {
        first_index(sets, name, i + 1)
    }
}

/// The partner sets with `(name, cs)` stored: it replaces an entry of that
/// name, or else is appended.
pub open spec fn insert_set(
    sets: Seq<(Seq<char>, CollSetModel)>,
    name: Seq<char>,
    cs: CollSetModel,
) -> Seq<(Seq<char>, CollSetModel)> {
    let i = first_index(sets, name, 0);
    if i < 0 {
        sets.push((name, cs))
    } else {
        sets.update(i, (name, cs))
    }
}

/// `n` more partner blocks from `p` on, stored into `acc`.
pub open spec fn partners_from(
    t: Seq<char>,
    p: int,
    n: nat,
    acc: Seq<(Seq<char>, CollSetModel)>,
) -> Result<(Seq<(Seq<char>, CollSetModel)>, int), LAMDAError>
    decreases n,
{
    if n == 0 {
        Ok((acc, p))
    } else {
        match partner_at(t, p) {
            Err(e) => Err(e),
            Ok(((name, cs), q)) => partners_from(t, q, (n - 1) as nat, insert_set(acc, name, cs)),
        }
    }
}

/// Reads `n` collisional transition records of `partner`.
fn read_colls(reader: &mut LineReader, n: usize, partner: &String, temps: &Vec<String>) -> (r:
    Result<Vec<ColliTransition>, LAMDAError>)
    requires
        old(reader).wf(),
    ensures
        final(reader).wf(),
        final(reader).text() == old(reader).text(),
        match colls_from(
            old(reader).text(),
            old(reader).pos(),
            n as nat,
            partner@,
            temps@.map_values(|s: String| s@),
            seq![],
        ) {
            Ok((cs, q)) => r matches Ok(v) && v@.map_values(|x: ColliTransition| x@) == cs
                && final(reader).pos() == q,
            Err(e) => r == Err::<Vec<ColliTransition>, LAMDAError>(e),
        },
{
    let ghost t = reader.text();
    let ghost p0 = reader.pos();
    let ghost tps = temps@.map_values(|s: String| s@);
    let mut out: Vec<ColliTransition> = Vec::new();
    let mut i: usize = 0;
    assert(out@.map_values(|x: ColliTransition| x@) =~= seq![]);
    while i < n
        invariant
            i <= n,
            reader.wf(),
            reader.text() == t,
            t == old(reader).text(),
            p0 == old(reader).pos(),
            tps == temps@.map_values(|s: String| s@),
            colls_from(
                t,
                reader.pos(),
                (n - i) as nat,
                partner@,
                tps,
                out@.map_values(|x: ColliTransition| x@),
            ) == colls_from(t, p0, n as nat, partner@, tps, seq![]),
        decreases n - i,
    {
        let l = match required_line(reader, Field::CollId) {
            Ok(l) => l,
            Err(e) => return Err(e),
        };
        let ct = match parse_coll(&l, partner, temps) {
            Ok(ct) => ct,
            Err(e) => return Err(e),
        };
        let ghost before = out@.map_values(|x: ColliTransition| x@);
        out.push(ct);
        assert(out@.map_values(|x: ColliTransition| x@) =~= before.push(ct@));
        i = i + 1;
    }
    Ok(out)
}

/// Reads the block of one collision partner.
fn read_partner(reader: &mut LineReader) -> (r: Result<(String, CollSet), LAMDAError>)
    requires
        old(reader).wf(),
    ensures
        final(reader).wf(),
        final(reader).text() == old(reader).text(),
        match partner_at(old(reader).text(), old(reader).pos()) {
            Ok(((name, cs), q)) => r matches Ok(v) && v.0@ == name && v.1@ == cs
                && final(reader).pos() == q,
            Err(e) => r == Err::<(String, CollSet), LAMDAError>(e),
        },
{
    let mut buf = String::new();
    crate::io::skip_line(reader, &mut buf);
    let lid = match required_line(reader, Field::PartnerId) {
        Ok(l) => l,
        Err(e) => return Err(e),
    };
    let ts = split_tokens(&lid);
    if ts.len() == 0 {
        return Err(LAMDAError::ParseError(ParseFault::MissingField(Field::PartnerId)));
    }
    let name = match partner_name(&ts[0]) {
        Some(n) => n,
        None => return Err(LAMDAError::ParseError(ParseFault::InvalidPartnerId)),
    };
    let nc = match read_count(reader, Field::CollCount) {
        Ok(n) => n,
        Err(e) => return Err(e),
    };
    match read_count(reader, Field::TempCount) {
        Ok(_) => {},
        Err(e) => return Err(e),
    }
    crate::io::skip_line(reader, &mut buf);
    let tl = match required_line(reader, Field::Temperature) {
        Ok(l) => l,
        Err(e) => return Err(e),
    };
    let temps = match read_temps(&tl) {
        Ok(v) => v,
        Err(e) => return Err(e),
    };
    crate::io::skip_line(reader, &mut buf);
    let trs = match read_colls(reader, nc, &name, &temps) {
        Ok(v) => v,
        Err(e) => return Err(e),
    };
    Ok((name, CollSet { temps, coll_transitions: trs }))
}

/// Stores `(name, cs)` into `sets`, replacing an entry of that name.
fn store_set(sets: &mut Vec<(String, CollSet)>, name: String, cs: CollSet)
    ensures
        final(sets)@.map_values(|e: (String, CollSet)| (e.0@, e.1@)) == insert_set(
            old(sets)@.map_values(|e: (String, CollSet)| (e.0@, e.1@)),
            name@,
            cs@,
        ),
{
    let ghost sv = sets@.map_values(|e: (String, CollSet)| (e.0@, e.1@));
    let mut i: usize = 0;
    while i < sets.len()
        invariant
            i <= sets.len(),
            sv == sets@.map_values(|e: (String, CollSet)| (e.0@, e.1@)),
            sv == old(sets)@.map_values(|e: (String, CollSet)| (e.0@, e.1@)),
            first_index(sv, name@, i as int) == first_index(sv, name@, 0),
        decreases sets.len() - i,
    {
        if sets[i].0 == name {
            let ghost nv = name@;
            let ghost cv = cs@;
            sets.set(i, (name, cs));
            assert(sets@.map_values(|e: (String, CollSet)| (e.0@, e.1@)) =~= sv.update(
                i as int,
                (nv, cv),
            ));
            return ;
        }
        i = i + 1;
    }
    let ghost nv = name@;
    let ghost cv = cs@;
    sets.push((name, cs));
    assert(sets@.map_values(|e: (String, CollSet)| (e.0@, e.1@)) =~= sv.push((nv, cv)));
}

/// Reads `n` partner blocks.
fn read_partners(reader: &mut LineReader, n: usize) -> (r: Result<
    Vec<(String, CollSet)>,
    LAMDAError,
>)
    requires
        old(reader).wf(),
    ensures
        final(reader).wf(),
        final(reader).text() == old(reader).text(),
        match partners_from(old(reader).text(), old(reader).pos(), n as nat, seq![]) {
            Ok((ss, q)) => r matches Ok(v) && v@.map_values(
                |e: (String, CollSet)| (e.0@, e.1@),
            ) == ss && final(reader).pos() == q,
            Err(e) => r == Err::<Vec<(String, CollSet)>, LAMDAError>(e),
        },
{
    let ghost t = reader.text();
    let ghost p0 = reader.pos();
    let mut out: Vec<(String, CollSet)> = Vec::new();
    let mut i: usize = 0;
    assert(out@.map_values(|e: (String, CollSet)| (e.0@, e.1@)) =~= seq![]);
    while i < n
        invariant
            i <= n,
            reader.wf(),
            reader.text() == t,
            t == old(reader).text(),
            p0 == old(reader).pos(),
            partners_from(
                t,
                reader.pos(),
                (n - i) as nat,
                out@.map_values(|e: (String, CollSet)| (e.0@, e.1@)),
            ) == partners_from(t, p0, n as nat, seq![]),
        decreases n - i,
    {
        let (name, cs) = match read_partner(reader) {
            Ok(v) => v,
            Err(e) => return Err(e),
        };
        store_set(&mut out, name, cs);
        i = i + 1;
    }
    Ok(out)
}

/// The header at `p`: the molecule name, its weight and the level count,
/// each after one skipped line, with the position after the count line.
pub open spec fn header_at(t: Seq<char>, p: int) -> Result<
    (Seq<char>, Seq<char>, usize, int),
    LAMDAError,
> {
    let p1 = after_line(t, p);
    match line_from(t, p1) {
        None => Err(LAMDAError::ParseError(ParseFault::UnexpectedEof(Field::MoleculeName))),
        Some(nl) => {
            let p3 = after_line(t, after_line(t, p1));
            match line_from(t, p3) {
                None => Err(LAMDAError::ParseError(ParseFault::UnexpectedEof(Field::MoleculeWeight))),
                Some(wl) => match float_of(trim(wl), Field::MoleculeWeight) {
                    Err(e) => Err(e),
                    Ok(weight) => match count_at(t, after_line(t, p3), Field::LevelCount) {
                        Err(e) => Err(e),
                        Ok((nlev, q)) => Ok((trim(nl), weight, nlev, q)),
                    },
                },
            }
        },
    }
}

/// The catalogue that the text `t` holds from position `p` on: the header,
/// the levels, the radiative transitions and the partner blocks; each batch
/// of records comes after its count and one skipped line.
pub open spec fn lamda_from(t: Seq<char>, p: int, mode: JColumn) -> Result<LAMDAModel, LAMDAError> {
    match header_at(t, p) {
        Err(e) => Err(e),
        Ok((name, weight, nlev, p5)) => match levels_from(
            t,
            after_line(t, p5),
            nlev as nat,
            mode,
            seq![],
        ) {
            Err(e) => Err(e),
            Ok((levels, p6)) => match count_at(t, p6, Field::RadCount) {
                Err(e) => Err(e),
                Ok((nrad, p7)) => match rads_from(t, after_line(t, p7), nrad as nat, seq![]) {
                    Err(e) => Err(e),
                    Ok((radset, p8)) => match count_at(t, p8, Field::PartnerCount) {
                        Err(e) => Err(e),
                        Ok((npart, p9)) => match partners_from(t, p9, npart as nat, seq![]) {
                            Err(e) => Err(e),
                            Ok((collsets, _)) => Ok(
                                LAMDAModel { name, weight, levels, radset, collsets },
                            ),
                        },
                    },
                },
            },
        },
    }
}

/// Reads the header.
fn read_header(reader: &mut LineReader) -> (r: Result<(String, String, usize), LAMDAError>)
    requires
        old(reader).wf(),
    ensures
        final(reader).wf(),
        final(reader).text() == old(reader).text(),
        match header_at(old(reader).text(), old(reader).pos()) {
            Ok((name, weight, n, q)) => r matches Ok(v) && v.0@ == name && v.1@ == weight
                && v.2 == n && final(reader).pos() == q,
            Err(e) => r == Err::<(String, String, usize), LAMDAError>(e),
        },
{
    let mut buf = String::new();
    crate::io::skip_line(reader, &mut buf);
    let nl = match required_line(reader, Field::MoleculeName) {
        Ok(l) => l,
        Err(e) => return Err(e),
    };
    let name_chars = trimmed(&nl);
    let name = string_of(&name_chars, 0, name_chars.len());
    assert(name_chars@.subrange(0, name_chars@.len() as int) =~= name_chars@);
    crate::io::skip_line(reader, &mut buf);
    let wl = match required_line(reader, Field::MoleculeWeight) {
        Ok(l) => l,
        Err(e) => return Err(e),
    };
    let weight = match float_text(&trimmed(&wl), Field::MoleculeWeight) {
        Ok(w) => w,
        Err(e) => return Err(e),
    };
    let nlev = match read_count(reader, Field::LevelCount) {
        Ok(n) => n,
        Err(e) => return Err(e),
    };
    Ok((name, weight, nlev))
}

impl LAMDAData {
    /// Reads a catalogue from the lines that `reader` has still to give; a
    /// level's `j` may be absent and then counts as 0.
    pub fn from_reader(reader: LineReader) -> (r: Result<LAMDAData, LAMDAError>)
        requires
            reader.wf(),
        ensures
            res_view(r) == lamda_from(reader.text(), reader.pos(), JColumn::Optional),
    {
        LAMDAData::from_reader_with(reader, JColumn::Optional)
    }

    /// Reads a catalogue from the lines that `reader` has still to give, with
    /// the level column `j` optional or required as `mode` says.
    pub fn from_reader_with(reader: LineReader, mode: JColumn) -> (r: Result<
        LAMDAData,
        LAMDAError,
    >)
        requires
            reader.wf(),
        ensures
            res_view(r) == lamda_from(reader.text(), reader.pos(), mode),
    {
        let mut reader = reader;
        let (name, weight, nlev) = match read_header(&mut reader) {
            Ok(v) => v,
            Err(e) => return Err(e),
        };
        let mut buf = String::new();
        crate::io::skip_line(&mut reader, &mut buf);
        let levels = match read_levels(&mut reader, nlev, mode) {
            Ok(v) => v,
            Err(e) => return Err(e),
        };
        let nrad = match read_count(&mut reader, Field::RadCount) {
            Ok(n) => n,
            Err(e) => return Err(e),
        };
        crate::io::skip_line(&mut reader, &mut buf);
        let radset = match read_rads(&mut reader, nrad) {
            Ok(v) => v,
            Err(e) => return Err(e),
        };
        let npart = match read_count(&mut reader, Field::PartnerCount) {
            Ok(n) => n,
            Err(e) => return Err(e),
        };
        let collsets = match read_partners(&mut reader, npart) {
            Ok(v) => v,
            Err(e) => return Err(e),
        };
        Ok(LAMDAData { name, weight, levels, radset, collsets })
    }

    /// Reads a catalogue from the whole of `text`; a level's `j` may be
    /// absent and then counts as 0.
    pub fn parse(text: &str) -> (r: Result<LAMDAData, LAMDAError>)
        ensures
            res_view(r) == lamda_from(text@, 0, JColumn::Optional),
    {
        LAMDAData::from_reader(LineReader::new(text))
    }
}

} // verus!
