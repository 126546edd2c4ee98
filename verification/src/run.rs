//! The plan of a benchmark: the settings it is drawn from, which scenarios
//! it selects, and the identifier that packs one measurement's parameters.

use vstd::prelude::*;
use vstd::string::StringSliceAdditionalSpecFns;
use vstd::utf8::encode_utf8;

verus! {

/// Settings given on the command line; each overrides the one of the
/// configuration file.
pub struct Cli {
    pub config: Option<String>,
    pub sample: Option<u64>,
    pub min_bit: Option<u32>,
    pub max_bit: Option<u32>,
    pub min_fill_bit: Option<u32>,
    pub max_fill_bit: Option<u32>,
    pub min_data_bit: Option<u32>,
    pub max_data_bit: Option<u32>,
    pub filter_scenario: Option<Vec<String>>,
}

/// Settings read from a configuration file.
pub struct Config {
    pub sample: Option<u64>,
    pub min_bit: Option<u32>,
    pub max_bit: Option<u32>,
    pub min_fill_bit: Option<u32>,
    pub max_fill_bit: Option<u32>,
    pub min_data_bit: Option<u32>,
    pub max_data_bit: Option<u32>,
    pub filter_scenario: Option<Vec<String>>,
}

/// The bounds of a benchmark once every default is applied.
pub struct Settings {
    pub sample: u64,
    pub min_bit: u32,
    pub max_bit: u32,
    pub min_fill_bit: u32,
    pub max_fill_bit: u32,
    pub min_data_bit: u32,
    pub max_data_bit: u32,
}

/// `first` if it holds a value, else `second`.
pub open spec fn or_else<T>(first: Option<T>, second: Option<T>) -> Option<T> {
    if first is Some {
        first
    } else {
        second
    }
}

/// The value held, or `default`.
pub open spec fn value_or<T>(o: Option<T>, default: T) -> T {
    match o {
        Some(v) => v,
        None => default,
    }
}

fn pick_u64(first: Option<u64>, second: Option<u64>) -> (r: Option<u64>)
    ensures
        r == or_else(first, second),
{
    match first {
        Some(v) => Some(v),
        None => second,
    }
}

fn pick_u32(first: Option<u32>, second: Option<u32>) -> (r: Option<u32>)
    ensures
        r == or_else(first, second),
{
    match first {
        Some(v) => Some(v),
        None => second,
    }
}

impl Default for Config {
    fn default() -> (c: Self)
        ensures
            c.sample is None,
            c.min_bit is None,
            c.max_bit is None,
            c.min_fill_bit is None,
            c.max_fill_bit is None,
            c.min_data_bit is None,
            c.max_data_bit is None,
            c.filter_scenario is None,
    {
        Config {
            sample: None,
            min_bit: None,
            max_bit: None,
            min_fill_bit: None,
            max_fill_bit: None,
            min_data_bit: None,
            max_data_bit: None,
            filter_scenario: None,
        }
    }
}

impl Config {
    /// The settings of the file, each replaced by the one of the command
    /// line where that one is given.
    pub fn merge_with_cli(self, cli: Cli) -> (r: Config)
        ensures
            r.sample == or_else(cli.sample, self.sample),
            r.min_bit == or_else(cli.min_bit, self.min_bit),
            r.max_bit == or_else(cli.max_bit, self.max_bit),
            r.min_fill_bit == or_else(cli.min_fill_bit, self.min_fill_bit),
            r.max_fill_bit == or_else(cli.max_fill_bit, self.max_fill_bit),
            r.min_data_bit == or_else(cli.min_data_bit, self.min_data_bit),
            r.max_data_bit == or_else(cli.max_data_bit, self.max_data_bit),
            r.filter_scenario == or_else(cli.filter_scenario, self.filter_scenario),
    {
        Config {
            sample: pick_u64(cli.sample, self.sample),
            min_bit: pick_u32(cli.min_bit, self.min_bit),
            max_bit: pick_u32(cli.max_bit, self.max_bit),
            min_fill_bit: pick_u32(cli.min_fill_bit, self.min_fill_bit),
            max_fill_bit: pick_u32(cli.max_fill_bit, self.max_fill_bit),
            min_data_bit: pick_u32(cli.min_data_bit, self.min_data_bit),
            max_data_bit: pick_u32(cli.max_data_bit, self.max_data_bit),
            filter_scenario: match cli.filter_scenario {
                Some(cli_filters) => Some(cli_filters),
                None => self.filter_scenario,
            },
        }
    }

    /// The bounds, with the defaults: 10 samples, capacities from 4 to 16
    /// bits, and fill and data bounds that default to the capacity bounds.
    pub fn resolve(&self) -> (s: Settings)
        ensures
            s.sample == value_or(self.sample, 10),
            s.min_bit == value_or(self.min_bit, 4),
            s.max_bit == value_or(self.max_bit, 16),
            s.min_fill_bit == value_or(self.min_fill_bit, s.min_bit),
            s.max_fill_bit == value_or(self.max_fill_bit, s.max_bit),
            s.min_data_bit == value_or(self.min_data_bit, s.min_bit),
            s.max_data_bit == value_or(self.max_data_bit, s.max_bit),
    {
        let sample = match self.sample {
            Some(v) => v,
            None => 10,
        };
        let min_bit = match self.min_bit {
            Some(v) => v,
            None => 4,
        };
        let max_bit = match self.max_bit {
            Some(v) => v,
            None => 16,
        };
        let min_fill_bit = match self.min_fill_bit {
            Some(v) => v,
            None => min_bit,
        };
        let max_fill_bit = match self.max_fill_bit {
            Some(v) => v,
            None => max_bit,
        };
        let min_data_bit = match self.min_data_bit {
            Some(v) => v,
            None => min_bit,
        };
        let max_data_bit = match self.max_data_bit {
            Some(v) => v,
            None => max_bit,
        };
        Settings {
            sample,
            min_bit,
            max_bit,
            min_fill_bit,
            max_fill_bit,
            min_data_bit,
            max_data_bit,
        }
    }
}

/// `needle` occurs in `hay` as a run of consecutive bytes.
pub open spec fn occurs_in(needle: Seq<u8>, hay: Seq<u8>) -> bool {
    exists|i: int| 0 <= i <= hay.len() - needle.len() && #[trigger] hay.subrange(i, i + needle.len()) == needle
}

/// Whether `needle` occurs in `hay`.
fn contains_bytes(hay: &[u8], needle: &[u8]) -> (found: bool)
    ensures
        found == occurs_in(needle@, hay@),
{
    let hay_len = hay.len();
    let needle_len = needle.len();
    if needle_len > hay_len {
        return false;
    }
    let last = hay_len - needle_len;
    let mut i: usize = 0;
    loop
        invariant
            hay_len == hay@.len(),
            needle_len == needle@.len(),
            last + needle_len == hay_len,
            i <= last,
            forall|k: int| 0 <= k < i ==> #[trigger] hay@.subrange(k, k + needle@.len()) != needle@,
        ensures
            !occurs_in(needle@, hay@),
        decreases last - i,
    {
        let mut j: usize = 0;
        let mut same = true;
        while j < needle_len
            invariant
                hay_len == hay@.len(),
                needle_len == needle@.len(),
                last + needle_len == hay_len,
                i <= last,
                j <= needle_len,
                same == (forall|m: int| 0 <= m < j ==> hay@[i + m] == needle@[m]),
            decreases needle_len - j,
        {
            if hay[i + j] != needle[j] {
                same = false;
            }
            j = j + 1;
        }
        if same {
            assert(hay@.subrange(i as int, i + needle@.len()) =~= needle@);
            return true;
        }
        proof {
            assert(hay@.subrange(i as int, i + needle@.len()) != needle@) by {
                let m = choose|m: int| 0 <= m < needle@.len() && hay@[i + m] != needle@[m];
                assert(hay@.subrange(i as int, i + needle@.len())[m] == hay@[i + m]);
            }
        }
        if i == last {
            break;
        }
        i = i + 1;
    }
    false
}

/// A scenario named `name` runs when no filter is given, and otherwise
/// when the bytes of one of the filters occur in the bytes of its name.
pub open spec fn selected_by(name: Seq<char>, filters: Option<Vec<String>>) -> bool {
    match filters {
        None => true,
        Some(fs) => any_occurs(fs@, name),
    }
}

/// One of the filters occurs in the name, both taken as UTF-8 bytes.
pub open spec fn any_occurs(filters: Seq<String>, name: Seq<char>) -> bool {
    exists|k: int|
        0 <= k < filters.len() && occurs_in(#[trigger] encode_utf8(filters[k]@), encode_utf8(name))
}

/// Whether a scenario of that name runs.
pub fn scenario_selected(name: &str, filters: &Option<Vec<String>>) -> (selected: bool)
    ensures
        selected == selected_by(name@, *filters),
{
    match filters {
        None => true,
        Some(fs) => {
            let hay = name.as_bytes();
            let mut k: usize = 0;
            while k < fs.len()
                invariant
                    *filters == Some(*fs),
                    hay@ == encode_utf8(name@),
                    k <= fs@.len(),
                    forall|m: int| 0 <= m < k ==> !occurs_in(#[trigger] encode_utf8(fs@[m]@), encode_utf8(name@)),
                    !any_occurs(fs@.take(k as int), name@),
                decreases fs@.len() - k,
            {
                let needle = fs[k].as_str().as_bytes();
                assert(needle@ == encode_utf8(fs@[k as int]@));
                if contains_bytes(hay, needle) {
                    assert(occurs_in(encode_utf8(fs@[k as int]@), encode_utf8(name@)));
                    let ghost w = k as int;
                    let ghost v: Vec<String> = *fs;
                    assert(v@[w] == fs@[w]);
                    assert(0 <= w < v@.len() && occurs_in(encode_utf8(v@[w]@), encode_utf8(name@)));
                    assert(any_occurs(v@, name@));
                    assert(selected_by(name@, Some(v)));
                    return true;
                }
                k = k + 1;
            }
            assert(*filters == Some(*fs));
            false
        },
    }
}

/// The parameters of one measurement packed in 128 bits: the scenario in
/// bits 0 to 15, the capacity, fill and data bit widths in three fields of
/// five bits from bit 16, and the seed in bits 64 to 127.
#[derive(Clone, Copy)]
pub struct RunId(u128);

/// The packed value of a measurement's parameters; each width keeps its
/// five low bits.
pub open spec fn packed_run(scenario: u16, cap_n: u8, fill_idx: u8, data_idx: u8, seed: u64) -> int {
    scenario + (cap_n % 32) * 0x1_0000 + (fill_idx % 32) * 0x20_0000 + (data_idx % 32) * 0x400_0000
        + seed * 0x1_0000_0000_0000_0000
}

impl RunId {
    /// The packed value.
    pub closed spec fn packed(&self) -> u128 {
        self.0
    }

    pub fn new(scenario: u16, cap_n: u8, fill_idx: u8, data_idx: u8, seed: u64) -> (id: Self)
        ensures
            id.packed() == packed_run(scenario, cap_n, fill_idx, data_idx, seed),
    {
        let v: u128 = (scenario as u128) | (((cap_n & 0b11111) as u128) << 16u128) | (((fill_idx
            & 0b11111) as u128) << 21u128) | (((data_idx & 0b11111) as u128) << 26u128) | ((
        seed as u128) << 64u128);
        assert(v == (scenario as u128) + ((cap_n % 32) as u128) * 0x1_0000u128 + ((fill_idx % 32) as u128) * 0x20_0000u128
            + ((data_idx % 32) as u128) * 0x400_0000u128 + (seed as u128) * 0x1_0000_0000_0000_0000u128) by (bit_vector)
            requires
                v == (scenario as u128) | (((cap_n & 0b11111) as u128) << 16u128) | (((fill_idx
                    & 0b11111) as u128) << 21u128) | (((data_idx & 0b11111) as u128) << 26u128)
                    | ((seed as u128) << 64u128),
        ;
        RunId(v)
    }

    /// The scenario index, the capacity, fill and data bit widths, and the
    /// seed.
    pub fn unpack(self) -> (parts: (u16, u8, u8, u8, u64))
        ensures
            parts.0 == self.packed() % 0x1_0000,
            parts.1 == (self.packed() / 0x1_0000) % 32,
            parts.2 == (self.packed() / 0x20_0000) % 32,
            parts.3 == (self.packed() / 0x400_0000) % 32,
            parts.4 == self.packed() / 0x1_0000_0000_0000_0000,
    {
        let v = self.0;
        let parts = (
            (v & 0xFFFF) as u16,
            ((v >> 16u128) & 0b11111) as u8,
            ((v >> 21u128) & 0b11111) as u8,
            ((v >> 26u128) & 0b11111) as u8,
            ((v >> 64u128) & 0xFFFF_FFFF_FFFF_FFFF) as u64,
        );
        assert((v & 0xFFFF) == v % 0x1_0000) by (bit_vector);
        assert(((v >> 16u128) & 0b11111) == (v / 0x1_0000) % 32) by (bit_vector);
        assert(((v >> 21u128) & 0b11111) == (v / 0x20_0000) % 32) by (bit_vector);
        assert(((v >> 26u128) & 0b11111) == (v / 0x400_0000) % 32) by (bit_vector);
        assert(((v >> 64u128) & 0xFFFF_FFFF_FFFF_FFFF) == v / 0x1_0000_0000_0000_0000) by (bit_vector);
        parts
    }
}

/// Unpacking the identifier of a measurement gives back its scenario and
/// seed, and the five low bits of each bit width.
pub proof fn law_run_id_round_trip(scenario: u16, cap_n: u8, fill_idx: u8, data_idx: u8, seed: u64)
    ensures
        ({
            let p = packed_run(scenario, cap_n, fill_idx, data_idx, seed);
            &&& p % 0x1_0000 == scenario
            &&& (p / 0x1_0000) % 32 == cap_n % 32
            &&& (p / 0x20_0000) % 32 == fill_idx % 32
            &&& (p / 0x400_0000) % 32 == data_idx % 32
            &&& p / 0x1_0000_0000_0000_0000 == seed
        }),
{
    let c = cap_n % 32;
    let f = fill_idx % 32;
    let d = data_idx % 32;
    let p = packed_run(scenario, cap_n, fill_idx, data_idx, seed);
    let low = scenario + c * 0x1_0000 + f * 0x20_0000 + d * 0x400_0000;
    assert(0 <= low < 0x1_0000_0000_0000_0000);
    assert(p == low + seed * 0x1_0000_0000_0000_0000);
    assert(p / 0x1_0000_0000_0000_0000 == seed) by (nonlinear_arith)
        requires
            p == low + seed * 0x1_0000_0000_0000_0000,
            0 <= low < 0x1_0000_0000_0000_0000,
    ;
    assert(p % 0x1_0000 == scenario) by (nonlinear_arith)
        requires
            p == scenario + (c + f * 32 + d * 1024) * 0x1_0000 + seed * 0x1_0000_0000_0000_0000,
            0 <= scenario < 0x1_0000,
            0 <= c < 32,
            0 <= f < 32,
            0 <= d < 32,
            0 <= seed,
    ;
    assert((p / 0x1_0000) % 32 == c) by (nonlinear_arith)
        requires
            p == scenario + c * 0x1_0000 + (f + d * 32) * 0x20_0000 + seed * 0x1_0000_0000_0000_0000,
            0 <= scenario < 0x1_0000,
            0 <= c < 32,
            0 <= f < 32,
            0 <= d < 32,
            0 <= seed,
    ;
    assert((p / 0x20_0000) % 32 == f) by (nonlinear_arith)
        requires
            p == (scenario + c * 0x1_0000) + f * 0x20_0000 + d * 0x400_0000 + seed * 0x1_0000_0000_0000_0000,
            0 <= scenario < 0x1_0000,
            0 <= c < 32,
            0 <= f < 32,
            0 <= d < 32,
            0 <= seed,
    ;
    assert((p / 0x400_0000) % 32 == d) by (nonlinear_arith)
        requires
            p == (scenario + c * 0x1_0000 + f * 0x20_0000) + d * 0x400_0000 + seed * 0x1_0000_0000_0000_0000,
            0 <= scenario < 0x1_0000,
            0 <= c < 32,
            0 <= f < 32,
            0 <= d < 32,
            0 <= seed,
    ;
}

/// The number `2^bits - 1`, cut to 16 bits: the largest value of that many
/// bits, or 65535 from 16 bits on.
pub fn count_of_bits(bits: u8) -> (n: u16)
    requires
        bits < 32,
    ensures
        n == if bits >= 16 {
            0xffff
        } else {
            vstd::arithmetic::power2::pow2(bits as nat) - 1
        },
{
    let p: u32 = 1u32 << (bits as u32);
    proof {
        vstd::bits::lemma_u32_pow2_no_overflow(bits as nat);
        vstd::bits::lemma_u32_shl_is_mul(1u32, bits as u32);
        if bits >= 16 {
            let b = bits as u32;
            assert(((p - 1) as u16) == 0xffffu16) by (bit_vector)
                requires
                    p == 1u32 << b,
                    16 <= b < 32,
            ;
        } else {
            vstd::arithmetic::power2::lemma_pow2_strictly_increases(bits as nat, 16);
            vstd::arithmetic::power2::lemma2_to64();
        }
    }
    (p - 1) as u16
}

/// The packed values of a list of identifiers.
pub open spec fn packs(v: Seq<RunId>) -> Seq<int> {
    v.map_values(|x: RunId| x.packed() as int)
}

/// The measurements of one scenario, capacity and fill, with the data bit
/// widths from `lo` to `hi`.
pub open spec fn data_part(k: int, cap: int, fill: int, seed: u64, lo: int, hi: int) -> Seq<int>
    decreases hi - lo + 1,
{
    if hi < lo {
        Seq::empty()
    } else {
        data_part(k, cap, fill, seed, lo, hi - 1).push(
            packed_run(k as u16, cap as u8, fill as u8, hi as u8, seed),
        )
    }
}

/// The measurements of one scenario and capacity, with the fill bit widths
/// from `lo` to `hi`.
pub open spec fn fill_part(k: int, cap: int, seed: u64, lo: int, hi: int, data_lo: int, data_hi: int) -> Seq<int>
    decreases hi - lo + 1,
{
    if hi < lo {
        Seq::empty()
    } else {
        fill_part(k, cap, seed, lo, hi - 1, data_lo, data_hi) + data_part(k, cap, hi, seed, data_lo, data_hi)
    }
}

/// The smaller of two integers.
pub open spec fn min_int(a: int, b: int) -> int {
    if a <= b {
        a
    } else {
        b
    }
}

/// The measurements of one scenario with one seed, with the capacity bit
/// widths from `lo` to `hi`; the fill and data widths go up to the capacity.
pub open spec fn cap_part(k: int, seed: u64, lo: int, hi: int, s: Settings) -> Seq<int>
    decreases hi - lo + 1,
{
    if hi < lo {
        Seq::empty()
    } else {
        cap_part(k, seed, lo, hi - 1, s) + fill_part(
            k,
            hi,
            seed,
            s.min_fill_bit as int,
            min_int(s.max_fill_bit as int, hi),
            s.min_data_bit as int,
            min_int(s.max_data_bit as int, hi),
        )
    }
}

/// The measurements with one seed, of the first `n` scenarios, those that
/// are selected.
pub open spec fn scenario_part(selected: Seq<bool>, n: int, seed: u64, s: Settings) -> Seq<int>
    decreases n,
{
    if n <= 0 {
        Seq::empty()
    } else {
        scenario_part(selected, n - 1, seed, s) + if selected[n - 1] {
            cap_part(n - 1, seed, s.min_bit as int, s.max_bit as int, s)
        } else {
            Seq::empty()
        }
    }
}

/// Every measurement of the benchmark, seed after seed.
pub open spec fn plan(seeds: Seq<u64>, selected: Seq<bool>, s: Settings) -> Seq<int>
    decreases seeds.len(),
{
    if seeds.len() == 0 {
        Seq::empty()
    } else {
        plan(seeds.drop_last(), selected, s) + scenario_part(selected, selected.len() as int, seeds.last(), s)
    }
}

/// The packed identifier of the measurement of scenario `k` with capacity,
/// fill and data bit widths `cap`, `fill`, `data` and seed `seed`.
pub open spec fn run_code(k: int, cap: int, fill: int, data: int, seed: u64) -> int {
    packed_run(k as u16, cap as u8, fill as u8, data as u8, seed)
}

/// The widths of a measurement that the settings ask for: the capacity
/// width in its range, and the fill and data widths in theirs, neither
/// above the capacity width.
pub open spec fn widths_fit(s: Settings, cap: int, fill: int, data: int) -> bool {
    &&& s.min_bit <= cap <= s.max_bit
    &&& s.min_fill_bit <= fill <= s.max_fill_bit
    &&& fill <= cap
    &&& s.min_data_bit <= data <= s.max_data_bit
    &&& data <= cap
}

proof fn lemma_data_members(k: int, cap: int, fill: int, seed: u64, lo: int, hi: int)
    ensures
        forall|x: int| #[trigger] data_part(k, cap, fill, seed, lo, hi).contains(x) ==>
            exists|d: int| #![trigger run_code(k, cap, fill, d, seed)] lo <= d <= hi && x == run_code(k, cap, fill, d, seed),
        forall|d: int| lo <= d <= hi ==> data_part(k, cap, fill, seed, lo, hi).contains(#[trigger] run_code(k, cap, fill, d, seed)),
    decreases hi - lo + 1,
{
    broadcast use vstd::seq_lib::lemma_seq_contains_after_push;
    if hi >= lo {
        lemma_data_members(k, cap, fill, seed, lo, hi - 1);
        let prev = data_part(k, cap, fill, seed, lo, hi - 1);
        assert(data_part(k, cap, fill, seed, lo, hi) == prev.push(run_code(k, cap, fill, hi, seed)));
        assert forall|x: int| #[trigger] data_part(k, cap, fill, seed, lo, hi).contains(x) implies
            exists|d: int| #![trigger run_code(k, cap, fill, d, seed)] lo <= d <= hi && x == run_code(k, cap, fill, d, seed) by {
            if x == run_code(k, cap, fill, hi, seed) {
            } else {
                assert(prev.contains(x));
            }
        }
        assert forall|d: int| lo <= d <= hi implies data_part(k, cap, fill, seed, lo, hi).contains(#[trigger] run_code(k, cap, fill, d, seed)) by {
            if d < hi {
                assert(prev.contains(run_code(k, cap, fill, d, seed)));
            }
        }
    }
}

proof fn lemma_fill_members(k: int, cap: int, seed: u64, lo: int, hi: int, dlo: int, dhi: int)
    ensures
        forall|x: int| #[trigger] fill_part(k, cap, seed, lo, hi, dlo, dhi).contains(x) ==>
            exists|f: int, d: int| #![trigger run_code(k, cap, f, d, seed)]
                lo <= f <= hi && dlo <= d <= dhi && x == run_code(k, cap, f, d, seed),
        forall|f: int, d: int| lo <= f <= hi && dlo <= d <= dhi ==>
            fill_part(k, cap, seed, lo, hi, dlo, dhi).contains(#[trigger] run_code(k, cap, f, d, seed)),
    decreases hi - lo + 1,
{
    broadcast use vstd::seq_lib::lemma_seq_concat_contains_all_elements;
    if hi >= lo {
        lemma_fill_members(k, cap, seed, lo, hi - 1, dlo, dhi);
        lemma_data_members(k, cap, hi, seed, dlo, dhi);
        let prev = fill_part(k, cap, seed, lo, hi - 1, dlo, dhi);
        let last = data_part(k, cap, hi, seed, dlo, dhi);
        assert(fill_part(k, cap, seed, lo, hi, dlo, dhi) == prev + last);
        assert forall|x: int| #[trigger] fill_part(k, cap, seed, lo, hi, dlo, dhi).contains(x) implies
            exists|f: int, d: int| #![trigger run_code(k, cap, f, d, seed)]
                lo <= f <= hi && dlo <= d <= dhi && x == run_code(k, cap, f, d, seed) by {
            if prev.contains(x) {
                let (f, d) = choose|f: int, d: int| #![trigger run_code(k, cap, f, d, seed)]
                    lo <= f <= hi - 1 && dlo <= d <= dhi && x == run_code(k, cap, f, d, seed);
                assert(x == run_code(k, cap, f, d, seed));
            } else {
                assert(last.contains(x));
                let d = choose|d: int| #![trigger run_code(k, cap, hi, d, seed)] dlo <= d <= dhi && x == run_code(k, cap, hi, d, seed);
                assert(x == run_code(k, cap, hi, d, seed));
            }
        }
        assert forall|f: int, d: int| lo <= f <= hi && dlo <= d <= dhi implies
            fill_part(k, cap, seed, lo, hi, dlo, dhi).contains(#[trigger] run_code(k, cap, f, d, seed)) by {
            if f < hi {
                assert(prev.contains(run_code(k, cap, f, d, seed)));
            } else {
                assert(last.contains(run_code(k, cap, hi, d, seed)));
            }
        }
    }
}

proof fn lemma_cap_members(k: int, seed: u64, lo: int, hi: int, s: Settings)
    requires
        s.min_bit <= lo,
        hi <= s.max_bit,
    ensures
        forall|x: int| #[trigger] cap_part(k, seed, lo, hi, s).contains(x) ==>
            exists|c: int, f: int, d: int| #![trigger run_code(k, c, f, d, seed)]
                lo <= c <= hi && widths_fit(s, c, f, d) && x == run_code(k, c, f, d, seed),
        forall|c: int, f: int, d: int| lo <= c <= hi && widths_fit(s, c, f, d) ==>
            cap_part(k, seed, lo, hi, s).contains(#[trigger] run_code(k, c, f, d, seed)),
    decreases hi - lo + 1,
{
    broadcast use vstd::seq_lib::lemma_seq_concat_contains_all_elements;
    if hi >= lo {
        lemma_cap_members(k, seed, lo, hi - 1, s);
        let fhi = min_int(s.max_fill_bit as int, hi);
        let dhi = min_int(s.max_data_bit as int, hi);
        lemma_fill_members(k, hi, seed, s.min_fill_bit as int, fhi, s.min_data_bit as int, dhi);
        let prev = cap_part(k, seed, lo, hi - 1, s);
        let last = fill_part(k, hi, seed, s.min_fill_bit as int, fhi, s.min_data_bit as int, dhi);
        assert(cap_part(k, seed, lo, hi, s) == prev + last);
        assert forall|x: int| #[trigger] cap_part(k, seed, lo, hi, s).contains(x) implies
            exists|c: int, f: int, d: int| #![trigger run_code(k, c, f, d, seed)]
                lo <= c <= hi && widths_fit(s, c, f, d) && x == run_code(k, c, f, d, seed) by {
            if prev.contains(x) {
                let (c, f, d) = choose|c: int, f: int, d: int| #![trigger run_code(k, c, f, d, seed)]
                    lo <= c <= hi - 1 && widths_fit(s, c, f, d) && x == run_code(k, c, f, d, seed);
                assert(x == run_code(k, c, f, d, seed));
            } else {
                assert(last.contains(x));
                let (f, d) = choose|f: int, d: int| #![trigger run_code(k, hi, f, d, seed)]
                    s.min_fill_bit <= f <= fhi && s.min_data_bit <= d <= dhi && x == run_code(k, hi, f, d, seed);
                assert(widths_fit(s, hi, f, d));
                assert(x == run_code(k, hi, f, d, seed));
            }
        }
        assert forall|c: int, f: int, d: int| lo <= c <= hi && widths_fit(s, c, f, d) implies
            cap_part(k, seed, lo, hi, s).contains(#[trigger] run_code(k, c, f, d, seed)) by {
            if c < hi {
                assert(prev.contains(run_code(k, c, f, d, seed)));
            } else {
                assert(last.contains(run_code(k, hi, f, d, seed)));
            }
        }
    }
}

proof fn lemma_scenario_members(selected: Seq<bool>, n: int, seed: u64, s: Settings)
    requires
        n <= selected.len(),
    ensures
        forall|x: int| #[trigger] scenario_part(selected, n, seed, s).contains(x) ==>
            exists|k: int, c: int, f: int, d: int| #![trigger run_code(k, c, f, d, seed)]
                0 <= k < n && selected[k] && widths_fit(s, c, f, d) && x == run_code(k, c, f, d, seed),
        forall|k: int, c: int, f: int, d: int| 0 <= k < n && selected[k] && widths_fit(s, c, f, d) ==>
            scenario_part(selected, n, seed, s).contains(#[trigger] run_code(k, c, f, d, seed)),
    decreases n,
{
    broadcast use vstd::seq_lib::lemma_seq_concat_contains_all_elements;
    if n > 0 {
        lemma_scenario_members(selected, n - 1, seed, s);
        lemma_cap_members(n - 1, seed, s.min_bit as int, s.max_bit as int, s);
        let prev = scenario_part(selected, n - 1, seed, s);
        let last = if selected[n - 1] {
            cap_part(n - 1, seed, s.min_bit as int, s.max_bit as int, s)
        } else {
            Seq::<int>::empty()
        };
        assert(scenario_part(selected, n, seed, s) == prev + last);
        assert forall|x: int| #[trigger] scenario_part(selected, n, seed, s).contains(x) implies
            exists|k: int, c: int, f: int, d: int| #![trigger run_code(k, c, f, d, seed)]
                0 <= k < n && selected[k] && widths_fit(s, c, f, d) && x == run_code(k, c, f, d, seed) by {
            if prev.contains(x) {
                let (k, c, f, d) = choose|k: int, c: int, f: int, d: int| #![trigger run_code(k, c, f, d, seed)]
                    0 <= k < n - 1 && selected[k] && widths_fit(s, c, f, d) && x == run_code(k, c, f, d, seed);
                assert(x == run_code(k, c, f, d, seed));
            } else {
                assert(last.contains(x));
                assert(selected[n - 1]);
                let (c, f, d) = choose|c: int, f: int, d: int| #![trigger run_code(n - 1, c, f, d, seed)]
                    s.min_bit <= c <= s.max_bit && widths_fit(s, c, f, d) && x == run_code(n - 1, c, f, d, seed);
                assert(x == run_code(n - 1, c, f, d, seed));
            }
        }
        assert forall|k: int, c: int, f: int, d: int| 0 <= k < n && selected[k] && widths_fit(s, c, f, d) implies
            scenario_part(selected, n, seed, s).contains(#[trigger] run_code(k, c, f, d, seed)) by {
            if k < n - 1 {
                assert(prev.contains(run_code(k, c, f, d, seed)));
            } else {
                assert(last.contains(run_code(n - 1, c, f, d, seed)));
            }
        }
    }
}

/// The plan holds exactly the measurements that the settings ask for: each
/// planned identifier is that of a seed given, a selected scenario, a
/// capacity width between `min_bit` and `max_bit`, and fill and data widths
/// in their ranges and never above that capacity width; and each such
/// measurement is planned.
pub proof fn law_plan_is_the_asked_measurements(seeds: Seq<u64>, selected: Seq<bool>, s: Settings)
    ensures
        forall|x: int| #[trigger] plan(seeds, selected, s).contains(x) ==>
            exists|i: int, k: int, c: int, f: int, d: int| #![trigger run_code(k, c, f, d, seeds[i])]
                0 <= i < seeds.len() && 0 <= k < selected.len() && selected[k] && widths_fit(s, c, f, d)
                    && x == run_code(k, c, f, d, seeds[i]),
        forall|i: int, k: int, c: int, f: int, d: int|
            0 <= i < seeds.len() && 0 <= k < selected.len() && selected[k] && widths_fit(s, c, f, d) ==>
                plan(seeds, selected, s).contains(#[trigger] run_code(k, c, f, d, seeds[i])),
    decreases seeds.len(),
{
    broadcast use vstd::seq_lib::lemma_seq_concat_contains_all_elements;
    if seeds.len() > 0 {
        let rest = seeds.drop_last();
        let seed = seeds.last();
        law_plan_is_the_asked_measurements(rest, selected, s);
        lemma_scenario_members(selected, selected.len() as int, seed, s);
        let prev = plan(rest, selected, s);
        let last = scenario_part(selected, selected.len() as int, seed, s);
        assert(plan(seeds, selected, s) == prev + last);
        assert forall|x: int| #[trigger] plan(seeds, selected, s).contains(x) implies
            exists|i: int, k: int, c: int, f: int, d: int| #![trigger run_code(k, c, f, d, seeds[i])]
                0 <= i < seeds.len() && 0 <= k < selected.len() && selected[k] && widths_fit(s, c, f, d)
                    && x == run_code(k, c, f, d, seeds[i]) by {
            if prev.contains(x) {
                let (i, k, c, f, d) = choose|i: int, k: int, c: int, f: int, d: int| #![trigger run_code(k, c, f, d, rest[i])]
                    0 <= i < rest.len() && 0 <= k < selected.len() && selected[k] && widths_fit(s, c, f, d)
                        && x == run_code(k, c, f, d, rest[i]);
                assert(rest[i] == seeds[i]);
                assert(x == run_code(k, c, f, d, seeds[i]));
            } else {
                assert(last.contains(x));
                let (k, c, f, d) = choose|k: int, c: int, f: int, d: int| #![trigger run_code(k, c, f, d, seed)]
                    0 <= k < selected.len() && selected[k] && widths_fit(s, c, f, d) && x == run_code(k, c, f, d, seed);
                assert(seeds[seeds.len() - 1] == seed);
                assert(x == run_code(k, c, f, d, seeds[seeds.len() - 1]));
            }
        }
        assert forall|i: int, k: int, c: int, f: int, d: int|
            0 <= i < seeds.len() && 0 <= k < selected.len() && selected[k] && widths_fit(s, c, f, d) implies
                plan(seeds, selected, s).contains(#[trigger] run_code(k, c, f, d, seeds[i])) by {
            if i < seeds.len() - 1 {
                assert(rest[i] == seeds[i]);
                assert(prev.contains(run_code(k, c, f, d, rest[i])));
            } else {
                assert(last.contains(run_code(k, c, f, d, seed)));
            }
        }
    }
}

proof fn lemma_packs_push(v: Seq<RunId>, x: RunId)
    ensures
        packs(v.push(x)) == packs(v).push(x.packed() as int),
{
    assert(packs(v.push(x)) =~= packs(v).push(x.packed() as int));
}

fn push_data(out: &mut Vec<RunId>, k: usize, cap: u64, fill: u64, seed: u64, lo: u32, hi: u64)
    requires
        hi <= u32::MAX,
    ensures
        packs(final(out)@) == packs(old(out)@) + data_part(k as int, cap as int, fill as int, seed, lo as int, hi as int),
{
    let mut d: u64 = lo as u64;
    let ghost base = packs(out@);
    assert(data_part(k as int, cap as int, fill as int, seed, lo as int, lo - 1) =~= Seq::<int>::empty());
    assert(packs(out@) =~= base + data_part(k as int, cap as int, fill as int, seed, lo as int, lo - 1));
    while d <= hi
        invariant
            hi <= u32::MAX,
            lo <= d,
            d <= hi + 1 || d == lo,
            packs(out@) == base + data_part(k as int, cap as int, fill as int, seed, lo as int, d - 1),
        decreases hi + 1 - d,
    {
        let id = RunId::new(#[verifier::truncate] (k as u16), #[verifier::truncate] (cap as u8), #[verifier::truncate] (fill as u8), #[verifier::truncate] (d as u8), seed);
        let ghost before = out@;
        out.push(id);
        proof {
            lemma_packs_push(before, id);
            assert(packs(out@) =~= base + data_part(k as int, cap as int, fill as int, seed, lo as int, d as int));
        }
        d = d + 1;
    }
    assert(data_part(k as int, cap as int, fill as int, seed, lo as int, d - 1) == data_part(k as int, cap as int, fill as int, seed, lo as int, hi as int));
}

fn push_fill(out: &mut Vec<RunId>, k: usize, cap: u64, seed: u64, lo: u32, hi: u64, data_lo: u32, data_hi: u64)
    requires
        hi <= u32::MAX,
        data_hi <= u32::MAX,
    ensures
        packs(final(out)@) == packs(old(out)@) + fill_part(k as int, cap as int, seed, lo as int, hi as int, data_lo as int, data_hi as int),
{
    let mut f: u64 = lo as u64;
    let ghost base = packs(out@);
    assert(packs(out@) =~= base + fill_part(k as int, cap as int, seed, lo as int, lo - 1, data_lo as int, data_hi as int));
    while f <= hi
        invariant
            hi <= u32::MAX,
            data_hi <= u32::MAX,
            lo <= f,
            f <= hi + 1 || f == lo,
            packs(out@) == base + fill_part(k as int, cap as int, seed, lo as int, f - 1, data_lo as int, data_hi as int),
        decreases hi + 1 - f,
    {
        let ghost before = packs(out@);
        push_data(out, k, cap, f, seed, data_lo, data_hi);
        assert(packs(out@) =~= base + fill_part(k as int, cap as int, seed, lo as int, f as int, data_lo as int, data_hi as int));
        f = f + 1;
    }
    assert(fill_part(k as int, cap as int, seed, lo as int, f - 1, data_lo as int, data_hi as int) == fill_part(k as int, cap as int, seed, lo as int, hi as int, data_lo as int, data_hi as int));
}

fn push_caps(out: &mut Vec<RunId>, k: usize, seed: u64, s: &Settings)
    ensures
        packs(final(out)@) == packs(old(out)@) + cap_part(k as int, seed, s.min_bit as int, s.max_bit as int, *s),
{
    let mut c: u64 = s.min_bit as u64;
    let ghost base = packs(out@);
    assert(packs(out@) =~= base + cap_part(k as int, seed, s.min_bit as int, s.min_bit - 1, *s));
    while c <= s.max_bit as u64
        invariant
            s.min_bit <= c,
            c <= s.max_bit + 1 || c == s.min_bit,
            packs(out@) == base + cap_part(k as int, seed, s.min_bit as int, c - 1, *s),
        decreases s.max_bit + 1 - c,
    {
        let fill_hi: u64 = if (s.max_fill_bit as u64) < c {
            s.max_fill_bit as u64
        } else {
            c
        };
        let data_hi: u64 = if (s.max_data_bit as u64) < c {
            s.max_data_bit as u64
        } else {
            c
        };
        push_fill(out, k, c, seed, s.min_fill_bit, fill_hi, s.min_data_bit, data_hi);
        assert(packs(out@) =~= base + cap_part(k as int, seed, s.min_bit as int, c as int, *s));
        c = c + 1;
    }
    assert(cap_part(k as int, seed, s.min_bit as int, c - 1, *s) == cap_part(k as int, seed, s.min_bit as int, s.max_bit as int, *s));
}

/// The identifiers of every measurement: for each seed in turn, for each
/// selected scenario in order, for each capacity bit width from `min_bit`
/// to `max_bit`, each fill width from `min_fill_bit` up to the smaller of
/// `max_fill_bit` and the capacity width, and each data width likewise.
pub fn plan_runs(seeds: &Vec<u64>, selected: &Vec<bool>, s: &Settings) -> (runs: Vec<RunId>)
    ensures
        packs(runs@) == plan(seeds@, selected@, *s),
{
    let mut runs: Vec<RunId> = Vec::new();
    let mut i: usize = 0;
    assert(packs(runs@) =~= plan(seeds@.take(0), selected@, *s));
    while i < seeds.len()
        invariant
            i <= seeds@.len(),
            packs(runs@) == plan(seeds@.take(i as int), selected@, *s),
        decreases seeds@.len() - i,
    {
        let seed = seeds[i];
        let ghost outer = packs(runs@);
        let mut k: usize = 0;
        assert(packs(runs@) =~= outer + scenario_part(selected@, 0, seed, *s));
        while k < selected.len()
            invariant
                k <= selected@.len(),
                i < seeds@.len(),
                seed == seeds@[i as int],
                packs(runs@) == outer + scenario_part(selected@, k as int, seed, *s),
            decreases selected@.len() - k,
        {
            if selected[k] {
                push_caps(&mut runs, k, seed, s);
            }
            assert(packs(runs@) =~= outer + scenario_part(selected@, k + 1, seed, *s));
            k = k + 1;
        }
        proof {
            assert(seeds@.take(i + 1).drop_last() =~= seeds@.take(i as int));
            assert(seeds@.take(i + 1).last() == seed);
        }
        i = i + 1;
        assert(packs(runs@) =~= plan(seeds@.take(i as int), selected@, *s));
    }
    assert(seeds@.take(seeds@.len() as int) =~= seeds@);
    runs
}

} // verus!
