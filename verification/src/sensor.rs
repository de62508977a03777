//! The system sensor's coalescing: each metric sits in a band, and a
//! sweep emits a perception only when a metric changes band; the first
//! reading of a metric seeds its band silently.
use vstd::prelude::*;
use crate::text::{chars_vec, concat3, eq_str, has_prefix, int_string, int_text, starts_with};

verus! {

/// The band a metric was last seen in, by the first entry that names it.
pub open spec fn band_of(bands: Seq<(Seq<char>, i64)>, metric: Seq<char>) -> Option<i64>
    decreases bands.len(),
{
    if bands.len() == 0 {
        None
    } else if bands[0].0 == metric {
        Some(bands[0].1)
    } else {
        band_of(bands.drop_first(), metric)
    }
}

/// The bands with `metric` set to `band`: its entry replaced, or a new
/// entry at the end.
pub open spec fn put_band(bands: Seq<(Seq<char>, i64)>, metric: Seq<char>, band: i64) -> Seq<(Seq<char>, i64)>
    decreases bands.len(),
{
    if bands.len() == 0 {
        seq![(metric, band)]
    } else if bands[0].0 == metric {
        bands.update(0, (metric, band))
    } else {
        seq![bands[0]] + put_band(bands.drop_first(), metric, band)
    }
}

/// A band change worth a perception: the metric, its new band and the
/// band it left.
pub struct Crossing {
    pub metric: String,
    pub band: i64,
    pub prev: i64,
}

/// The crossings one sweep finds, in sample order, and the bands after
/// it: a sample whose metric has a recorded band (not negative) that
/// differs crosses; every sample records its band.
pub open spec fn sweep_spec(bands: Seq<(Seq<char>, i64)>, samples: Seq<(Seq<char>, i64)>)
    -> (Seq<(Seq<char>, i64)>, Seq<(Seq<char>, i64, i64)>)
    decreases samples.len(),
{
    if samples.len() == 0 {
        (bands, Seq::empty())
    } else {
        let prev = sweep_spec(bands, samples.drop_last());
        let (m, b) = samples.last();
        let crossed = match band_of(prev.0, m) {
            Some(p) => p >= 0 && p != b,
            None => false,
        };
        (put_band(prev.0, m, b), if crossed { prev.1.push((m, b, band_of(prev.0, m)->0)) } else { prev.1 })
    }
}

/// The band edges a metric is judged by: every GPU's free share shares
/// one set of edges.
pub open spec fn edge_key_spec(metric: Seq<char>) -> Seq<char> {
    if has_prefix(metric, "gpu"@) { "gpu_free_pct"@ } else { metric }
}

/// The band edges a metric is judged by (see `edge_key_spec`).
pub fn edge_key(metric: &str) -> (k: String)
    ensures
        k@ == edge_key_spec(metric@),
{
    if starts_with(&chars_vec(metric), &chars_vec("gpu")) {
        String::from_str("gpu_free_pct")
    } else {
        String::from_str(metric)
    }
}

/// The metric name of a GPU's free share.
pub fn gpu_metric(index: i64) -> (m: String)
    ensures
        m@ == "gpu"@ + int_text(index as int) + "_free_pct"@,
{
    let i = int_string(index);
    concat3("gpu", i.as_str(), "_free_pct")
}

fn find_band(bands: &Vec<(String, i64)>, metric: &str) -> (r: Option<usize>)
    ensures
        match r {
            Some(i) => i < bands.len() && bands@[i as int].0@ == metric@
                && forall|j: int| 0 <= j < i ==> bands@[j].0@ != metric@,
            None => forall|j: int| 0 <= j < bands.len() ==> bands@[j].0@ != metric@,
        },
{
    let mut i: usize = 0;
    while i < bands.len()
        invariant
            i <= bands.len(),
            forall|j: int| 0 <= j < i ==> bands@[j].0@ != metric@,
        decreases bands.len() - i,
    {
        if eq_str(bands[i].0.as_str(), metric) {
            return Some(i);
        }
        i = i + 1;
    }
    None
}

/// The bands as plain values.
pub open spec fn bands_view(bands: Seq<(String, i64)>) -> Seq<(Seq<char>, i64)> {
    bands.map_values(|e: (String, i64)| (e.0@, e.1))
}

proof fn lemma_band_of_first(bands: Seq<(Seq<char>, i64)>, metric: Seq<char>, i: int)
    requires
        0 <= i <= bands.len(),
        forall|j: int| 0 <= j < i ==> bands[j].0 != metric,
        i < bands.len() ==> bands[i].0 == metric,
    ensures
        band_of(bands, metric) == if i < bands.len() { Some(bands[i].1) } else { None::<i64> },
        forall|b: i64| #[trigger] put_band(bands, metric, b) == if i < bands.len() {
            bands.update(i, (metric, b))
        } else {
            bands.push((metric, b))
        },
    decreases i,
{
    if i > 0 {
        lemma_band_of_first(bands.drop_first(), metric, i - 1);
        assert forall|b: i64| #[trigger] put_band(bands, metric, b) == if i < bands.len() {
            bands.update(i, (metric, b))
        } else {
            bands.push((metric, b))
        } by {
            assert(bands[0].0 != metric);
            let t = put_band(bands.drop_first(), metric, b);
            assert(t == if i - 1 < bands.drop_first().len() {
                bands.drop_first().update(i - 1, (metric, b))
            } else {
                bands.drop_first().push((metric, b))
            });
            if i < bands.len() {
                assert(seq![bands[0]] + bands.drop_first().update(i - 1, (metric, b)) =~= bands.update(i, (metric, b)));
            } else {
                assert(seq![bands[0]] + bands.drop_first().push((metric, b)) =~= bands.push((metric, b)));
            }
        }
    } else if bands.len() == 0 {
        assert forall|b: i64| #[trigger] put_band(bands, metric, b) == bands.push((metric, b)) by {
            assert(seq![(metric, b)] =~= bands.push((metric, b)));
        }
    }
}

/// Sweeps `samples` (each a metric and the band its reading falls in)
/// against the recorded bands: returns the crossings, and leaves every
/// sampled metric recorded at its new band.
pub fn sweep(bands: &mut Vec<(String, i64)>, samples: &Vec<(String, i64)>) -> (crossings: Vec<Crossing>)
    ensures
        bands_view(final(bands)@) == sweep_spec(bands_view(old(bands)@), bands_view(samples@)).0,
        crossings@.map_values(|c: Crossing| (c.metric@, c.band, c.prev))
            == sweep_spec(bands_view(old(bands)@), bands_view(samples@)).1,
{
    let ghost b0 = bands_view(bands@);
    let ghost sv = bands_view(samples@);
    let mut out: Vec<Crossing> = Vec::new();
    let mut k: usize = 0;
    while k < samples.len()
        invariant
            k <= samples.len(),
            sv == bands_view(samples@),
            bands_view(bands@) == sweep_spec(b0, sv.take(k as int)).0,
            out@.map_values(|c: Crossing| (c.metric@, c.band, c.prev)) == sweep_spec(b0, sv.take(k as int)).1,
        decreases samples.len() - k,
    {
        assert(sv.take(k + 1).drop_last() == sv.take(k as int));
        assert(sv.take(k + 1).last() == (samples@[k as int].0@, samples@[k as int].1));
        let metric = samples[k].0.as_str();
        let b = samples[k].1;
        let ghost bv = bands_view(bands@);
        let found = find_band(bands, metric);
        proof {
            let i = match found {
                Some(i) => i as int,
                None => bands.len() as int,
            };
            assert forall|j: int| 0 <= j < i implies bv[j].0 != metric@ by {
                assert(bv[j] == (bands@[j].0@, bands@[j].1));
            }
            if i < bands.len() {
                assert(bv[i] == (bands@[i].0@, bands@[i].1));
            }
            lemma_band_of_first(bv, metric@, i);
        }
        match found {
            Some(i) => {
                let p = bands[i].1;
                if p >= 0 && p != b {
                    let ghost before = out@.map_values(|c: Crossing| (c.metric@, c.band, c.prev));
                    out.push(Crossing { metric: String::from_str(metric), band: b, prev: p });
                    assert(out@.map_values(|c: Crossing| (c.metric@, c.band, c.prev)) =~= before.push((metric@, b, p)));
                }
                let name = String::from_str(metric);
                bands.set(i, (name, b));
                assert(bands_view(bands@) =~= bv.update(i as int, (metric@, b)));
            },
            None => {
                bands.push((String::from_str(metric), b));
                assert(bands_view(bands@) =~= bv.push((metric@, b)));
            },
        }
        k = k + 1;
    }
    assert(sv.take(samples.len() as int) == sv);
    out
}

proof fn lemma_put_band_get(bands: Seq<(Seq<char>, i64)>, m: Seq<char>, b: i64, q: Seq<char>)
    ensures
        band_of(put_band(bands, m, b), q) == if q == m { Some(b) } else { band_of(bands, q) },
    decreases bands.len(),
{
    if bands.len() > 0 && bands[0].0 != m {
        lemma_put_band_get(bands.drop_first(), m, b, q);
        let r = seq![bands[0]] + put_band(bands.drop_first(), m, b);
        assert(r.drop_first() =~= put_band(bands.drop_first(), m, b));
        assert(r[0] == bands[0]);
        assert(put_band(bands, m, b) == r);
        if bands[0].0 == q {
            assert(band_of(r, q) == Some(bands[0].1));
        } else {
            assert(band_of(r, q) == band_of(r.drop_first(), q));
        }
    } else if bands.len() > 0 {
        let r = bands.update(0, (m, b));
        assert(r.drop_first() =~= bands.drop_first());
        assert(r[0] == (m, b));
        assert(put_band(bands, m, b) == r);
        if q != m {
            assert(band_of(r, q) == band_of(r.drop_first(), q));
            assert(band_of(bands, q) == band_of(bands.drop_first(), q));
        }
    } else {
        let r = seq![(m, b)];
        assert(r.drop_first() =~= Seq::<(Seq<char>, i64)>::empty());
        assert(r[0] == (m, b));
        assert(put_band(bands, m, b) == r);
        assert(band_of(bands, q) is None);
        if q != m {
            assert(band_of(r, q) == band_of(r.drop_first(), q));
        }
    }
}

proof fn lemma_sweep_records(bands: Seq<(Seq<char>, i64)>, samples: Seq<(Seq<char>, i64)>)
    requires
        forall|i: int, j: int| 0 <= i < j < samples.len() ==> samples[i].0 != samples[j].0,
    ensures
        forall|i: int| 0 <= i < samples.len() ==> band_of(sweep_spec(bands, samples).0, #[trigger] samples[i].0)
            == Some(samples[i].1),
    decreases samples.len(),
{
    if samples.len() > 0 {
        let init = samples.drop_last();
        lemma_sweep_records(bands, init);
        let prev = sweep_spec(bands, init);
        let (m, b) = samples.last();
        assert forall|i: int| 0 <= i < samples.len() implies band_of(sweep_spec(bands, samples).0, #[trigger] samples[i].0)
            == Some(samples[i].1) by {
            lemma_put_band_get(prev.0, m, b, samples[i].0);
            if i < samples.len() - 1 {
                assert(init[i] == samples[i]);
            }
        }
    }
}

proof fn lemma_sweep_quiet(bands: Seq<(Seq<char>, i64)>, samples: Seq<(Seq<char>, i64)>)
    requires
        forall|i: int, j: int| 0 <= i < j < samples.len() ==> samples[i].0 != samples[j].0,
        forall|i: int| 0 <= i < samples.len() ==> band_of(bands, #[trigger] samples[i].0) == Some(samples[i].1),
    ensures
        sweep_spec(bands, samples).1.len() == 0,
        forall|i: int| 0 <= i < samples.len() ==> band_of(sweep_spec(bands, samples).0, #[trigger] samples[i].0)
            == Some(samples[i].1),
    decreases samples.len(),
{
    if samples.len() > 0 {
        let init = samples.drop_last();
        assert forall|i: int, j: int| 0 <= i < j < init.len() implies init[i].0 != init[j].0 by {
            assert(init[i] == samples[i] && init[j] == samples[j]);
        }
        assert forall|i: int| 0 <= i < init.len() implies band_of(bands, #[trigger] init[i].0) == Some(init[i].1) by {
            assert(init[i] == samples[i]);
        }
        lemma_sweep_quiet(bands, init);
        let prev = sweep_spec(bands, init);
        let (m, b) = samples.last();
        assert(band_of(prev.0, m) == Some(b)) by {
            lemma_sweep_unchanged(bands, init, m);
            assert(band_of(bands, samples[samples.len() - 1].0) == Some(samples[samples.len() - 1].1));
        }
        assert forall|i: int| 0 <= i < samples.len() implies band_of(sweep_spec(bands, samples).0, #[trigger] samples[i].0)
            == Some(samples[i].1) by {
            lemma_put_band_get(prev.0, m, b, samples[i].0);
            if i < samples.len() - 1 {
                assert(init[i] == samples[i]);
            }
        }
    }
}

proof fn lemma_sweep_unchanged(bands: Seq<(Seq<char>, i64)>, samples: Seq<(Seq<char>, i64)>, q: Seq<char>)
    requires
        forall|i: int| 0 <= i < samples.len() ==> (#[trigger] samples[i]).0 != q,
    ensures
        band_of(sweep_spec(bands, samples).0, q) == band_of(bands, q),
    decreases samples.len(),
{
    if samples.len() > 0 {
        let init = samples.drop_last();
        assert forall|i: int| 0 <= i < init.len() implies (#[trigger] init[i]).0 != q by {
            assert(init[i] == samples[i]);
        }
        lemma_sweep_unchanged(bands, init, q);
        let (m, b) = samples.last();
        lemma_put_band_get(sweep_spec(bands, init).0, m, b, q);
        assert(samples[samples.len() - 1].0 != q);
    }
}

/// A state that stays in its band is reported once: sweeping the same
/// readings a second time finds no crossing (for readings of distinct
/// metrics, as one sweep takes them).
pub proof fn law_sweep_coalesces(bands: Seq<(Seq<char>, i64)>, samples: Seq<(Seq<char>, i64)>)
    requires
        forall|i: int, j: int| 0 <= i < j < samples.len() ==> samples[i].0 != samples[j].0,
    ensures
        sweep_spec(sweep_spec(bands, samples).0, samples).1.len() == 0,
{
    lemma_sweep_records(bands, samples);
    lemma_sweep_quiet(sweep_spec(bands, samples).0, samples);
}

/// The first reading of a metric is not an event: a sweep over bands that
/// record none of the sampled metrics finds no crossing.
pub proof fn law_first_sweep_silent(samples: Seq<(Seq<char>, i64)>)
    ensures
        sweep_spec(Seq::empty(), samples).1.len() == 0 || exists|i: int, j: int|
            0 <= i < j < samples.len() && samples[i].0 == samples[j].0,
    decreases samples.len(),
{
    if samples.len() > 0 && !(exists|i: int, j: int| 0 <= i < j < samples.len() && samples[i].0 == samples[j].0) {
        let init = samples.drop_last();
        assert(!(exists|i: int, j: int| 0 <= i < j < init.len() && init[i].0 == init[j].0)) by {
            if exists|i: int, j: int| 0 <= i < j < init.len() && init[i].0 == init[j].0 {
                let (i, j) = choose|i: int, j: int| 0 <= i < j < init.len() && init[i].0 == init[j].0;
                assert(samples[i] == init[i] && samples[j] == init[j]);
            }
        }
        law_first_sweep_silent(init);
        let (m, b) = samples.last();
        assert forall|i: int| 0 <= i < init.len() implies (#[trigger] init[i]).0 != m by {
            assert(init[i] == samples[i]);
            assert(samples[samples.len() - 1].0 == m);
        }
        lemma_sweep_unchanged(Seq::empty(), init, m);
    }
}

/// Whether a crossing is a worsening (the band rose): worsening outranks
/// recovery in the perception's salience.
pub fn worsening(c: &Crossing) -> (w: bool)
    ensures
        w == (c.band > c.prev),
{
    c.band > c.prev
}

/// Every band change of a recorded metric is perceived, a worsening or a
/// recovery alike: a further sample of a metric whose recorded band `p`
/// is not negative and differs from the new band `b` adds exactly the
/// crossing (metric, `b`, `p`); a sample in the recorded band adds none.
pub proof fn law_band_change_is_perceived(
    bands: Seq<(Seq<char>, i64)>,
    samples: Seq<(Seq<char>, i64)>,
    m: Seq<char>,
    b: i64,
    p: i64,
)
    requires
        band_of(sweep_spec(bands, samples).0, m) == Some(p),
        p >= 0,
    ensures
        p != b ==> sweep_spec(bands, samples.push((m, b))).1 == sweep_spec(bands, samples).1.push((m, b, p)),
        p == b ==> sweep_spec(bands, samples.push((m, b))).1 == sweep_spec(bands, samples).1,
{
    assert(samples.push((m, b)).drop_last() == samples);
}

} // verus!
