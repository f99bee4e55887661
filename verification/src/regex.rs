//! The character-class sampler.
//!
//! A class expression such as `a-z0` is expanded into an explicit alphabet
//! (ranges enumerate every Unicode scalar between their bounds), each symbol
//! gets a fixed heuristic weight approximating natural-language letter
//! frequency, and the normalized cumulative distribution is cached keyed by
//! the raw pattern text, so repeated use compiles once. Sampling draws a
//! short random length and then draws each symbol independently from the
//! cached distribution. An unknown pattern at sample time yields an empty
//! string rather than failing.

use vstd::prelude::*;
use vstd::utf8::is_scalar;
use crate::chars::{chars_of, string_from_chars};
use crate::fixed::{
    cdf_spec, cumulative_distribution, closest_index, pick_index, lemma_pick_from_bounds,
    lemma_cdf_wellformed, SCALE,
};
use crate::prng::{PRNG, draw_of, xorshift_step};

verus! {

/// The shortest string one class sample may produce.
pub const SAMPLE_LEN_MIN: i32 = 3;

/// The number of distinct lengths a class sample may take: lengths run from
/// `SAMPLE_LEN_MIN` to `SAMPLE_LEN_MIN + SAMPLE_LEN_SPAN - 1`.
pub const SAMPLE_LEN_SPAN: i32 = 4;

/// Relies on core's char::from_u32: `Some` exactly for Unicode scalar
/// values, and the returned character carries the given code.
pub assume_specification[ char::from_u32 ](i: u32) -> (r: Option<char>)
    ensures
        (r is Some) <==> is_scalar(i),
        (r is Some) ==> r->Some_0 as u32 == i,
;

/// Every Unicode scalar from `lo` to `hi` inclusive, in code order.
pub open spec fn scalar_range(lo: int, hi: int) -> Seq<char>
    decreases hi + 1 - lo
{
    if lo > hi {
        Seq::empty()
    } else if 0 <= lo <= 0x10FFFF && is_scalar(lo as u32) {
        seq![(lo as u32) as char] + scalar_range(lo + 1, hi)
    } else {
        scalar_range(lo + 1, hi)
    }
}

/// The characters a range `lo-hi` enumerates.
pub open spec fn char_range(lo: char, hi: char) -> Seq<char> {
    scalar_range(lo as u32 as int, hi as u32 as int)
}

/// The alphabet a class expression expands to, from position `i` on:
/// `x-y` becomes every character between, anything else stands for itself.
pub open spec fn expand_class_from(rs: Seq<char>, i: int) -> Seq<char>
    decreases rs.len() - i when 0 <= i <= rs.len()
{
    if i >= rs.len() {
        Seq::empty()
    } else if i + 2 < rs.len() && rs[i + 1] == '-' {
        char_range(rs[i], rs[i + 2]) + expand_class_from(rs, i + 3)
    } else {
        seq![rs[i]] + expand_class_from(rs, i + 1)
    }
}

/// The alphabet of a whole class expression.
pub open spec fn expand_class_spec(rs: Seq<char>) -> Seq<char> {
    expand_class_from(rs, 0)
}

/// The weight of a lowercase letter, by code, doubled so that uppercase
/// halves stay integral: e is highest, rare letters lowest.
pub open spec fn letter_bias(v: u32) -> u64 {
    if v == 101 {  // e
        24
    } else if v == 97 || v == 105 || v == 111 {  // a i o
        18
    } else if v == 110 || v == 114 || v == 116 || v == 115 || v == 108 {  // n r t s l
        12
    } else if v == 99 || v == 100 || v == 109 || v == 117 || v == 112 || v == 98 || v == 103 {
        8  // c d m u p b g
    } else if v == 102 || v == 104 || v == 118 || v == 107 || v == 119 || v == 121 {
        6  // f h v k w y
    } else {
        2  // j x q z
    }
}

/// The heuristic weight of one symbol: lowercase letters by the letter
/// table, uppercase at half their lowercase counterpart, digits and the
/// underscore at fixed moderate weights, anything else low.
pub open spec fn bias_of(c: char) -> u64 {
    let v = c as u32;
    if 97 <= v && v <= 122 {
        letter_bias(v)
    } else if 65 <= v && v <= 90 {
        letter_bias((v + 32) as u32) / 2
    } else if 48 <= v && v <= 57 {
        6
    } else if v == 95 {
        10
    } else {
        2
    }
}

/// The weights of an alphabet, symbol by symbol.
pub open spec fn class_weights(opts: Seq<char>) -> Seq<u64> {
    Seq::new(opts.len(), |k: int| bias_of(opts[k]))
}

/// The compiled distribution of a class pattern: its cumulative-frequency
/// vector and its alphabet.
pub open spec fn class_dist_of(pattern: Seq<char>) -> (Seq<u64>, Seq<char>) {
    let opts = expand_class_spec(pattern);
    (cdf_spec(class_weights(opts)), opts)
}

/// The characters drawn by `k` successive weighted draws starting from
/// generator state `n`, and the state afterwards.
pub open spec fn sample_chars(opts: Seq<char>, cdf: Seq<u64>, n: u64, k: nat) -> (Seq<char>, u64)
    recommends
        cdf.len() == opts.len(),
        opts.len() > 0,
    decreases k,
{
    if k == 0 {
        (Seq::empty(), n)
    } else {
        let n1 = xorshift_step(n);
        let x = draw_of(n1);
        let i = pick_index(cdf, x);
        let rest = sample_chars(opts, cdf, n1, (k - 1) as nat);
        (seq![opts[i]] + rest.0, rest.1)
    }
}

/// What one sampling call produces from generator state `n0`: the drawn
/// length is `3 + floor(4u)` for one uniform draw `u`, then that many
/// symbol draws; an unknown pattern or an empty alphabet yields the empty
/// string, the length draw already taken.
pub open spec fn sample_of(pattern: Seq<char>, known: bool, n0: u64) -> (Seq<char>, u64) {
    let n1 = xorshift_step(n0);
    let d = draw_of(n1) as int;
    let size = SAMPLE_LEN_MIN + (SAMPLE_LEN_SPAN * d) / (SCALE as int);
    let dist = class_dist_of(pattern);
    if !known || dist.1.len() == 0 {
        (Seq::empty(), n1)
    } else {
        sample_chars(dist.1, dist.0, n1, size as nat)
    }
}

/// One cached class: its cumulative-frequency vector and its alphabet.
#[derive(Debug, Clone)]
pub struct CacheRexState {
    pub cumu_freq: Vec<u64>,
    pub options: Vec<char>,
}

/// The memoizing sampler: compiled distributions keyed by raw pattern text.
#[derive(Debug, Clone)]
pub struct Regexer {
    cached_rex: Vec<(String, CacheRexState)>,
}

impl View for Regexer {
    type V = Seq<Seq<char>>;

    /// The cached pattern texts; each entry's distribution is pinned to its
    /// pattern by [`Regexer::wf`].
    closed spec fn view(&self) -> Seq<Seq<char>> {
        Seq::new(self.cached_rex@.len(), |k: int| self.cached_rex@[k].0@)
    }
}

/// Whether a pattern is cached.
pub open spec fn has_pattern(patterns: Seq<Seq<char>>, pat: Seq<char>) -> bool {
    exists|k: int| 0 <= k < patterns.len() && patterns[k] == pat
}

impl Regexer {
    /// Every cache entry holds exactly the compiled distribution of its key.
    pub closed spec fn wf(self) -> bool {
        forall|k: int|
            0 <= k < self.cached_rex@.len() ==> {
                let e = #[trigger] self.cached_rex@[k];
                (e.1.cumu_freq@, e.1.options@) == class_dist_of(e.0@)
            }
    }

    pub fn new() -> (r: Regexer)
        ensures
            r.wf(),
            r@ == Seq::<Seq<char>>::empty(),
    {
        let r = Regexer { cached_rex: Vec::new() };
        proof {
            assert(r@ =~= Seq::<Seq<char>>::empty());
        }
        r
    }

    /// The cache slot of a pattern, if it was compiled before.
    fn find_cached(&self, regex: &str) -> (r: Option<usize>)
        ensures
            match r {
                Some(i) => i < self.cached_rex@.len() && self.cached_rex@[i as int].0@ == regex@,
                None => !has_pattern(self@, regex@),
            },
    {
        let key: String = regex.to_owned();
        let n = self.cached_rex.len();
        let mut i: usize = 0;
        while i < n
            invariant
                i <= n,
                key@ == regex@,
                n == self.cached_rex@.len(),
                forall|k: int| 0 <= k < i ==> self.cached_rex@[k].0@ != regex@,
            decreases n - i,
        {
            let e = &self.cached_rex[i];
            if e.0 == key {
                return Some(i);
            }
            i = i + 1;
        }
        proof {
            assert(forall|k: int| 0 <= k < self@.len() ==> self@[k] == self.cached_rex@[k].0@);
        }
        None
    }

    /// Expands range notation into the explicit alphabet.
    fn expand_class(&self, class: &str) -> (r: Vec<char>)
        ensures
            r@ == expand_class_spec(class@),
    {
        let runes = chars_of(class);
        let n = runes.len();
        let mut out: Vec<char> = Vec::new();
        let mut i: usize = 0;
        while i < n
            invariant
                i <= n,
                n == runes@.len(),
                runes@ == class@,
                expand_class_from(runes@, 0) =~= out@ + expand_class_from(runes@, i as int),
            decreases n - i,
        {
            if n >= 3 && i < n - 2 && runes[i + 1] == '-' {
                let lo = runes[i];
                let hi = runes[i + 2];
                let ghost out0 = out@;
                let mut c: u32 = lo as u32;
                let hi_u: u32 = hi as u32;
                proof {
                    vstd::utf8::char_is_scalar(lo);
                    vstd::utf8::char_is_scalar(hi);
                }
                while c <= hi_u
                    invariant
                        hi_u == hi as u32,
                        hi_u <= 0x10FFFF,
                        out@ + scalar_range(c as int, hi_u as int) =~= out0 + char_range(lo, hi),
                    decreases hi_u + 1 - c,
                {
                    match char::from_u32(c) {
                        Some(ch) => {
                            out.push(ch);
                            proof {
                                vstd::utf8::char_u32_cast(ch, c);
                                assert(out@ + scalar_range(c as int + 1, hi_u as int) =~= out0
                                    + char_range(lo, hi));
                            }
                        },
                        None => {
                            proof {
                                assert(out@ + scalar_range(c as int + 1, hi_u as int) =~= out0
                                    + char_range(lo, hi));
                            }
                        },
                    }
                    c = c + 1;
                }
                proof {
                    assert(out@ =~= out0 + char_range(lo, hi));
                }
                i = i + 3;
            } else {
                out.push(runes[i]);
                i = i + 1;
            }
            proof {
                assert(expand_class_from(runes@, 0) =~= out@ + expand_class_from(
                    runes@,
                    i as int,
                ));
            }
        }
        out
    }

    /// Compiles and caches a class pattern; a pattern already cached is kept
    /// as it is.
    pub fn cache_regex(&mut self, regex: &str)
        requires
            old(self).wf(),
        ensures
            final(self).wf(),
            has_pattern(final(self)@, regex@),
            final(self)@ == (if has_pattern(old(self)@, regex@) {
                old(self)@
            } else {
                old(self)@.push(regex@)
            }),
            forall|p: Seq<char>|
                #[trigger] has_pattern(final(self)@, p) <==> (has_pattern(old(self)@, p) || p
                    == regex@),
    {
        match self.find_cached(regex) {
            Some(i) => {
                proof {
                    assert(self@[i as int] == regex@);
                    assert(has_pattern(self@, regex@));
                }
            },
            None => {
                let tokens = self.expand_class(regex);
                let m = tokens.len();
                let mut ws: Vec<u64> = Vec::new();
                let mut j: usize = 0;
                while j < m
                    invariant
                        j <= m,
                        m == tokens@.len(),
                        ws@.len() == j,
                        forall|k: int| 0 <= k < j ==> ws@[k] == bias_of(tokens@[k]),
                    decreases m - j,
                {
                    ws.push(bias(tokens[j]));
                    j = j + 1;
                }
                proof {
                    assert(ws@ =~= class_weights(tokens@));
                }
                let cdf = cumulative_distribution(&ws);
                let ghost old_view = self@;
                let ghost old_entries = self.cached_rex@;
                let new_key: String = regex.to_owned();
                let st = CacheRexState { cumu_freq: cdf, options: tokens };
                self.cached_rex.push((new_key, st));
                proof {
                    assert(self@.len() == old_view.len() + 1);
                    assert forall|k: int| 0 <= k < self@.len() implies self@[k] == old_view.push(
                        regex@,
                    )[k] by {
                        if k < old_view.len() {
                            assert(self.cached_rex@[k] == old_entries[k]);
                        }
                    }
                    assert(self@ =~= old_view.push(regex@));
                    assert(self@[old_view.len() as int] == regex@);
                    assert(has_pattern(self@, regex@));
                    assert forall|k: int| 0 <= k < self.cached_rex@.len() implies {
                        let e = #[trigger] self.cached_rex@[k];
                        (e.1.cumu_freq@, e.1.options@) == class_dist_of(e.0@)
                    } by {
                        if k < old_entries.len() {
                            assert(self.cached_rex@[k] == old_entries[k]);
                        } else {
                            assert(self.cached_rex@[k].0@ == regex@);
                        }
                    }
                    assert(self.wf());
                    assert forall|p: Seq<char>|
                        has_pattern(old_view, p) || p == regex@ implies #[trigger] has_pattern(
                        self@,
                        p,
                    ) by {
                        if has_pattern(old_view, p) {
                            let k = choose|k: int| 0 <= k < old_view.len() && old_view[k] == p;
                            assert(self@[k] == p);
                        } else {
                            assert(self@[old_view.len() as int] == p);
                        }
                    }
                }
            },
        }
    }

    /// Draws a short biased-random string from a cached class distribution;
    /// an uncached pattern or an empty alphabet yields the empty string.
    pub fn generate_string(&self, regex: &str, prn: &mut PRNG) -> (r: String)
        requires
            self.wf(),
        ensures
            ({
                let s = sample_of(regex@, has_pattern(self@, regex@), old(prn).state());
                r@ == s.0 && final(prn).state() == s.1
            }),
    {
        let v = self.generate_chars(regex, prn);
        string_from_chars(&v)
    }

    /// [`Regexer::generate_string`], as a character vector.
    pub fn generate_chars(&self, regex: &str, prn: &mut PRNG) -> (r: Vec<char>)
        requires
            self.wf(),
        ensures
            ({
                let s = sample_of(regex@, has_pattern(self@, regex@), old(prn).state());
                r@ == s.0 && final(prn).state() == s.1
            }),
    {
        let size = prn.random_int(SAMPLE_LEN_MIN, SAMPLE_LEN_SPAN);
        let ghost n1 = prn.state();
        let ghost want = sample_of(regex@, has_pattern(self@, regex@), old(prn).state());
        proof {
            assert(3 <= size <= 6) by {
                let d = draw_of(n1);
                assert(0 <= (4 * d as int) / (SCALE as int) <= 3) by (nonlinear_arith)
                    requires
                        0 <= d,
                        (d as int) < SCALE as int,
                        SCALE == 1000000,
                ;
            }
        }
        match self.find_cached(regex) {
            None => {
                proof {
                    assert(want.0 =~= Seq::<char>::empty());
                }
                Vec::new()
            },
            Some(e) => {
                proof {
                    assert(has_pattern(self@, regex@)) by {
                        assert(self@[e as int] == regex@);
                    }
                }
                let state = &self.cached_rex[e].1;
                let ghost opts = state.options@;
                let ghost cdf = state.cumu_freq@;
                proof {
                    lemma_cdf_wellformed(class_weights(opts));
                    assert(cdf.len() == opts.len());
                }
                if state.options.len() == 0 {
                    proof {
                        assert(want.0 =~= Seq::<char>::empty());
                    }
                    return Vec::new();
                }
                let size_u: usize = size as usize;
                let mut out: Vec<char> = Vec::new();
                let mut k: usize = 0;
                while k < size_u
                    invariant
                        k <= size_u,
                        self.wf(),
                        opts.len() > 0,
                        cdf.len() == opts.len(),
                        sample_chars(opts, cdf, n1, size_u as nat).0 =~= out@ + sample_chars(
                            opts,
                            cdf,
                            prn.state(),
                            (size_u - k) as nat,
                        ).0,
                        sample_chars(opts, cdf, n1, size_u as nat).1 == sample_chars(
                            opts,
                            cdf,
                            prn.state(),
                            (size_u - k) as nat,
                        ).1,
                        e < self.cached_rex@.len(),
                        self.cached_rex@[e as int].1.options@ == opts,
                        self.cached_rex@[e as int].1.cumu_freq@ == cdf,
                    decreases size_u - k,
                {
                    let x = prn.random();
                    let state = &self.cached_rex[e].1;
                    let idx = closest_index(&state.cumu_freq, x);
                    proof {
                        lemma_pick_from_bounds(cdf, x, 0);
                    }
                    out.push(state.options[idx]);
                    k = k + 1;
                    proof {
                        assert(sample_chars(opts, cdf, n1, size_u as nat).0 =~= out@
                            + sample_chars(opts, cdf, prn.state(), (size_u - k) as nat).0);
                    }
                }
                proof {
                    assert(out@ =~= sample_chars(opts, cdf, n1, size_u as nat).0);
                    assert((cdf, opts) == class_dist_of(regex@));
                }
                out
            },
        }
    }
}

/// The heuristic weight of one symbol.
fn bias(r: char) -> (b: u64)
    ensures
        b == bias_of(r),
{
    let v = r as u32;
    if 97 <= v && v <= 122 {
        letter_bias_exec(v)
    } else if 65 <= v && v <= 90 {
        letter_bias_exec(v + 32) / 2
    } else if 48 <= v && v <= 57 {
        6
    } else if v == 95 {
        10
    } else {
        2
    }
}

/// The doubled weight table for lowercase letter codes.
fn letter_bias_exec(v: u32) -> (b: u64)
    ensures
        b == letter_bias(v),
{
    if v == 101 {
        24
    } else if v == 97 || v == 105 || v == 111 {
        18
    } else if v == 110 || v == 114 || v == 116 || v == 115 || v == 108 {
        12
    } else if v == 99 || v == 100 || v == 109 || v == 117 || v == 112 || v == 98 || v == 103 {
        8
    } else if v == 102 || v == 104 || v == 118 || v == 107 || v == 119 || v == 121 {
        6
    } else {
        2
    }
}

} // verus!
