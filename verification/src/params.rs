//! Generation parameters: optional overrides, their layering onto
//! defaults, and clamping to the bounds a backend imposes.
//!
//! Real-valued settings are held in thousandths, so `700` stands for 0.7
//! and `-2000` for -2.0.

use crate::string_map::StringMap;
use crate::text::{decimal, render_decimal, render_thousandths, thousandths};
use vstd::prelude::*;
use vstd::string::*;

verus! {

/// Temperature of the stock settings, in thousandths.
pub const DEFAULT_TEMPERATURE: u32 = 700;

/// Nucleus-sampling threshold of the stock settings, in thousandths.
pub const DEFAULT_TOP_P: u32 = 950;

/// Token cap of the stock settings.
pub const DEFAULT_MAX_TOKENS: u32 = 4096;

/// The texts of a vector of strings, in order.
pub open spec fn texts(v: Seq<String>) -> Seq<Seq<char>> {
    Seq::new(v.len(), |i: int| v[i]@)
}

/// Generation tuning. Every setting is an optional override: `None` means
/// that the next layer below decides, never zero. An empty list of stop
/// sequences likewise leaves the choice to the layer below.
#[derive(Debug, Clone)]
pub struct ModelParameters {
    /// Sampling temperature in thousandths; backends take 0 to 2000.
    pub temperature: Option<u32>,
    /// Nucleus-sampling threshold in thousandths; backends take 0 to 1000.
    pub top_p: Option<u32>,
    /// The most tokens to generate; at least 1.
    pub max_tokens: Option<u32>,
    /// Presence penalty in thousandths.
    pub presence_penalty: Option<i32>,
    /// Frequency penalty in thousandths.
    pub frequency_penalty: Option<i32>,
    /// Texts that end generation, in order of preference.
    pub stop_sequences: Vec<String>,
}

/// What a set of parameters holds.
pub struct ParametersView {
    pub temperature: Option<u32>,
    pub top_p: Option<u32>,
    pub max_tokens: Option<u32>,
    pub presence_penalty: Option<i32>,
    pub frequency_penalty: Option<i32>,
    pub stop_sequences: Seq<Seq<char>>,
}

impl View for ModelParameters {
    type V = ParametersView;

    open spec fn view(&self) -> ParametersView {
        ParametersView {
            temperature: self.temperature,
            top_p: self.top_p,
            max_tokens: self.max_tokens,
            presence_penalty: self.presence_penalty,
            frequency_penalty: self.frequency_penalty,
            stop_sequences: texts(self.stop_sequences@),
        }
    }
}

impl Default for ModelParameters {
    /// The stock settings: temperature 0.7, threshold 0.95, 4096 tokens,
    /// no penalties, no stop sequences.
    fn default() -> (p: ModelParameters)
        ensures
            p.temperature == Some(DEFAULT_TEMPERATURE),
            p.top_p == Some(DEFAULT_TOP_P),
            p.max_tokens == Some(DEFAULT_MAX_TOKENS),
            p.presence_penalty == Some(0i32),
            p.frequency_penalty == Some(0i32),
            p.stop_sequences@.len() == 0,
    {
        ModelParameters {
            temperature: Some(DEFAULT_TEMPERATURE),
            top_p: Some(DEFAULT_TOP_P),
            max_tokens: Some(DEFAULT_MAX_TOKENS),
            presence_penalty: Some(0),
            frequency_penalty: Some(0),
            stop_sequences: Vec::new(),
        }
    }
}

/// The upper setting where it is set, the lower one otherwise.
pub open spec fn layered<T>(upper: Option<T>, lower: Option<T>) -> Option<T> {
    if upper is Some {
        upper
    } else {
        lower
    }
}

fn layer<T>(upper: Option<T>, lower: Option<T>) -> (r: Option<T>)
    ensures
        r == layered(upper, lower),
{
    match upper {
        Some(v) => Some(v),
        None => lower,
    }
}

/// `v` moved into the interval from `lo` to `hi`. Where the interval is
/// empty the lower end wins for values below it.
pub open spec fn clamp_to(v: int, lo: int, hi: int) -> int {
    if v < lo {
        lo
    } else if v > hi {
        hi
    } else {
        v
    }
}

/// A setting after clamping: unset stays unset.
pub open spec fn clamped_u32(v: Option<u32>, lo: u32, hi: u32) -> Option<u32> {
    match v {
        Some(x) => Some(clamp_to(x as int, lo as int, hi as int) as u32),
        None => None,
    }
}

/// What clamping reports of a setting: the new value where it differs
/// from the one asked for, nothing otherwise.
pub open spec fn noted_u32(v: Option<u32>, lo: u32, hi: u32) -> Option<u32> {
    match v {
        Some(x) => if clamp_to(x as int, lo as int, hi as int) != x {
            Some(clamp_to(x as int, lo as int, hi as int) as u32)
        } else {
            None
        },
        None => None,
    }
}

/// As `clamped_u32`, for signed settings.
pub open spec fn clamped_i32(v: Option<i32>, lo: i32, hi: i32) -> Option<i32> {
    match v {
        Some(x) => Some(clamp_to(x as int, lo as int, hi as int) as i32),
        None => None,
    }
}

/// As `noted_u32`, for signed settings.
pub open spec fn noted_i32(v: Option<i32>, lo: i32, hi: i32) -> Option<i32> {
    match v {
        Some(x) => if clamp_to(x as int, lo as int, hi as int) != x {
            Some(clamp_to(x as int, lo as int, hi as int) as i32)
        } else {
            None
        },
        None => None,
    }
}

fn clamp_u32(v: Option<u32>, lo: u32, hi: u32) -> (r: (Option<u32>, Option<u32>))
    ensures
        r.0 == clamped_u32(v, lo, hi),
        r.1 == noted_u32(v, lo, hi),
{
    match v {
        Some(x) => {
            let y: u32 = if x < lo {
                lo
            } else if x > hi {
                hi
            } else {
                x
            };
            (Some(y), if y != x { Some(y) } else { None })
        },
        None => (None, None),
    }
}

fn clamp_i32(v: Option<i32>, lo: i32, hi: i32) -> (r: (Option<i32>, Option<i32>))
    ensures
        r.0 == clamped_i32(v, lo, hi),
        r.1 == noted_i32(v, lo, hi),
{
    match v {
        Some(x) => {
            let y: i32 = if x < lo {
                lo
            } else if x > hi {
                hi
            } else {
                x
            };
            (Some(y), if y != x { Some(y) } else { None })
        },
        None => (None, None),
    }
}

/// The stop sequences that are kept of a list: going from the front, a
/// text is kept unless it is empty or was kept before.
pub open spec fn kept_stops(s: Seq<Seq<char>>) -> Seq<Seq<char>>
    decreases s.len(),
{
    if s.len() == 0 {
        Seq::empty()
    } else {
        let before = kept_stops(s.drop_last());
        if s.last().len() == 0 || before.contains(s.last()) {
            before
        } else {
            before.push(s.last())
        }
    }
}

/// The kept stop sequences form an ordered set of non-empty texts that
/// holds exactly the non-empty texts of the list.
pub proof fn lemma_kept_stops(s: Seq<Seq<char>>)
    ensures
        kept_stops(s).len() <= s.len(),
        forall|i: int| 0 <= i < kept_stops(s).len() ==> (#[trigger] kept_stops(s)[i]).len() > 0,
        forall|i: int, j: int|
            0 <= i < j < kept_stops(s).len() ==> kept_stops(s)[i] != kept_stops(s)[j],
        forall|x: Seq<char>| kept_stops(s).contains(x) <==> (s.contains(x) && x.len() > 0),
    decreases s.len(),
{
    if s.len() > 0 {
        let t = s.drop_last();
        let before = kept_stops(t);
        let last = s.last();
        lemma_kept_stops(t);
        assert forall|x: Seq<char>| kept_stops(s).contains(x) <==> (s.contains(x) && x.len()
            > 0) by {
            if s.contains(x) && x.len() > 0 {
                let i = choose|i: int| 0 <= i < s.len() && s[i] == x;
                if i < s.len() - 1 {
                    assert(t[i] == x);
                    assert(t.contains(x));
                    assert(before.contains(x));
                    let k = choose|k: int| 0 <= k < before.len() && before[k] == x;
                    assert(kept_stops(s)[k] == x);
                } else {
                    if before.contains(x) {
                    } else {
                        assert(kept_stops(s)[before.len() as int] == x);
                    }
                }
            }
            if kept_stops(s).contains(x) {
                let k = choose|k: int| 0 <= k < kept_stops(s).len() && kept_stops(s)[k] == x;
                if k < before.len() {
                    assert(before[k] == x);
                    assert(before.contains(x));
                    assert(t.contains(x));
                    let i = choose|i: int| 0 <= i < t.len() && t[i] == x;
                    assert(s[i] == x);
                } else {
                    assert(x == last);
                    assert(s[s.len() - 1] == x);
                }
            }
        }
    }
}

/// A list that is already an ordered set of non-empty texts is kept whole.
pub proof fn lemma_kept_stops_fixed(s: Seq<Seq<char>>)
    requires
        forall|i: int| 0 <= i < s.len() ==> (#[trigger] s[i]).len() > 0,
        forall|i: int, j: int| 0 <= i < j < s.len() ==> s[i] != s[j],
    ensures
        kept_stops(s) == s,
    decreases s.len(),
{
    if s.len() > 0 {
        let t = s.drop_last();
        lemma_kept_stops_fixed(t);
        if t.contains(s.last()) {
            let i = choose|i: int| 0 <= i < t.len() && t[i] == s.last();
            assert(s[i] != s[s.len() - 1]);
        }
        assert(t.push(s.last()) =~= s);
    } else {
        assert(kept_stops(s) =~= s);
    }
}

/// The limits that a backend puts on the settings. Temperature and
/// threshold run from 0 to their maximum, the token cap from 1 to the
/// ceiling, both penalties from `min_penalty` to `max_penalty`.
#[derive(Debug, Clone, Copy, PartialEq, Eq, Structural)]
pub struct ParameterBounds {
    pub max_temperature: u32,
    pub max_top_p: u32,
    pub max_tokens_ceiling: u32,
    pub min_penalty: i32,
    pub max_penalty: i32,
}

impl ParameterBounds {
    /// Bounds that leave every interval non-empty.
    pub open spec fn well_formed(&self) -> bool {
        self.max_tokens_ceiling >= 1 && self.min_penalty <= self.max_penalty
    }

    /// The usual ranges: temperature up to 2.0, threshold up to 1.0,
    /// penalties from -2.0 to 2.0, and no ceiling on the token cap below
    /// the type's own.
    pub fn standard() -> (b: ParameterBounds)
        ensures
            b == (ParameterBounds {
                max_temperature: 2000,
                max_top_p: 1000,
                max_tokens_ceiling: u32::MAX,
                min_penalty: -2000i32,
                max_penalty: 2000,
            }),
            b.well_formed(),
    {
        ParameterBounds {
            max_temperature: 2000,
            max_top_p: 1000,
            max_tokens_ceiling: u32::MAX,
            min_penalty: -2000,
            max_penalty: 2000,
        }
    }
}

/// What clamping changed. A field holds the value that was put in place
/// of the one asked for; `None` means the setting was left as it was.
#[derive(Debug, Clone, Copy, PartialEq, Eq, Structural)]
pub struct ClampReport {
    pub temperature: Option<u32>,
    pub top_p: Option<u32>,
    pub max_tokens: Option<u32>,
    pub presence_penalty: Option<i32>,
    pub frequency_penalty: Option<i32>,
    /// How many stop sequences were dropped as empty or repeated.
    pub stop_sequences_dropped: usize,
}

impl ClampReport {
    /// Nothing was changed.
    pub open spec fn unchanged(&self) -> bool {
        &&& self.temperature is None
        &&& self.top_p is None
        &&& self.max_tokens is None
        &&& self.presence_penalty is None
        &&& self.frequency_penalty is None
        &&& self.stop_sequences_dropped == 0
    }

    /// The metadata `m` with this report noted in it: one entry for each
    /// setting that was changed, which holds the value put in place, and
    /// one for the number of stop sequences dropped, if any were. Settings
    /// in thousandths are written as decimal numbers with three places.
    pub open spec fn noted_in(&self, m: Map<Seq<char>, Seq<char>>) -> Map<Seq<char>, Seq<char>> {
        let m = match self.temperature {
            Some(v) => m.insert("clamped.temperature"@, thousandths(v as int)),
            None => m,
        };
        let m = match self.top_p {
            Some(v) => m.insert("clamped.top_p"@, thousandths(v as int)),
            None => m,
        };
        let m = match self.max_tokens {
            Some(v) => m.insert("clamped.max_tokens"@, decimal(v as nat)),
            None => m,
        };
        let m = match self.presence_penalty {
            Some(v) => m.insert("clamped.presence_penalty"@, thousandths(v as int)),
            None => m,
        };
        let m = match self.frequency_penalty {
            Some(v) => m.insert("clamped.frequency_penalty"@, thousandths(v as int)),
            None => m,
        };
        if self.stop_sequences_dropped > 0 {
            m.insert("clamped.stop_sequences_dropped"@, decimal(self.stop_sequences_dropped as nat))
        } else {
            m
        }
    }

    /// Notes this report in `metadata`.
    pub fn record(&self, metadata: &mut StringMap)
        ensures
            final(metadata)@ == self.noted_in(old(metadata)@),
    {
        if let Some(v) = self.temperature {
            metadata.insert(String::from_str("clamped.temperature"), render_thousandths(v as i64));
        }
        if let Some(v) = self.top_p {
            metadata.insert(String::from_str("clamped.top_p"), render_thousandths(v as i64));
        }
        if let Some(v) = self.max_tokens {
            metadata.insert(String::from_str("clamped.max_tokens"), render_decimal(v as u64));
        }
        if let Some(v) = self.presence_penalty {
            metadata.insert(
                String::from_str("clamped.presence_penalty"),
                render_thousandths(v as i64),
            );
        }
        if let Some(v) = self.frequency_penalty {
            metadata.insert(
                String::from_str("clamped.frequency_penalty"),
                render_thousandths(v as i64),
            );
        }
        if self.stop_sequences_dropped > 0 {
            metadata.insert(
                String::from_str("clamped.stop_sequences_dropped"),
                render_decimal(self.stop_sequences_dropped as u64),
            );
        }
    }

    /// Whether clamping left every setting as it was.
    pub fn is_unchanged(&self) -> (b: bool)
        ensures
            b == self.unchanged(),
    {
        self.temperature.is_none() && self.top_p.is_none() && self.max_tokens.is_none()
            && self.presence_penalty.is_none() && self.frequency_penalty.is_none()
            && self.stop_sequences_dropped == 0
    }
}

/// Whether `list` holds a string with the text of `wanted`.
fn holds_text(list: &Vec<String>, wanted: &String) -> (found: bool)
    ensures
        found == texts(list@).contains(wanted@),
{
    let mut i: usize = 0;
    while i < list.len()
        invariant
            i <= list@.len(),
            forall|j: int| 0 <= j < i ==> texts(list@)[j] != wanted@,
        decreases list@.len() - i,
    {
        if list[i] == *wanted {
            assert(texts(list@)[i as int] == wanted@);
            return true;
        }
        i += 1;
    }
    false
}

/// Copies the stop sequences that are kept, in order.
fn keep_stops(stops: &Vec<String>) -> (kept: Vec<String>)
    ensures
        texts(kept@) == kept_stops(texts(stops@)),
{
    let mut kept: Vec<String> = Vec::new();
    let mut i: usize = 0;
    assert(texts(stops@).take(0) =~= Seq::<Seq<char>>::empty());
    assert(texts(kept@) =~= Seq::<Seq<char>>::empty());
    while i < stops.len()
        invariant
            i <= stops@.len(),
            texts(kept@) == kept_stops(texts(stops@).take(i as int)),
        decreases stops@.len() - i,
    {
        let ghost seen = texts(stops@).take(i as int);
        let ghost next = texts(stops@).take(i as int + 1);
        assert(next.drop_last() =~= seen);
        assert(next.last() == stops@[i as int]@);
        let ghost before = texts(kept@);
        if stops[i].as_str().is_empty() || holds_text(&kept, &stops[i]) {
        } else {
            kept.push(stops[i].clone());
            assert(texts(kept@) =~= before.push(stops@[i as int]@));
        }
        i += 1;
    }
    assert(texts(stops@).take(i as int) =~= texts(stops@));
    kept
}

impl ModelParameters {
    /// No override at all: every setting is left to the layer below.
    pub fn unset() -> (p: ModelParameters)
        ensures
            p.temperature is None,
            p.top_p is None,
            p.max_tokens is None,
            p.presence_penalty is None,
            p.frequency_penalty is None,
            p.stop_sequences@.len() == 0,
    {
        ModelParameters {
            temperature: None,
            top_p: None,
            max_tokens: None,
            presence_penalty: None,
            frequency_penalty: None,
            stop_sequences: Vec::new(),
        }
    }

    /// Every set value lies within `bounds`, and the stop sequences form
    /// an ordered set of non-empty texts.
    pub open spec fn within(&self, bounds: ParameterBounds) -> bool {
        &&& self.temperature matches Some(t) ==> t <= bounds.max_temperature
        &&& self.top_p matches Some(p) ==> p <= bounds.max_top_p
        &&& self.max_tokens matches Some(n) ==> 1 <= n <= bounds.max_tokens_ceiling
        &&& self.presence_penalty matches Some(p) ==> bounds.min_penalty <= p <= bounds.max_penalty
        &&& self.frequency_penalty matches Some(p) ==> bounds.min_penalty <= p
            <= bounds.max_penalty
        &&& kept_stops(texts(self.stop_sequences@)) == texts(self.stop_sequences@)
    }

    /// Lays these overrides onto `base`: a setting of `self` wins where it
    /// is set, and the stop sequences of `self` win where there are any.
    pub fn layered_over(self, base: ModelParameters) -> (p: ModelParameters)
        ensures
            p.temperature == layered(self.temperature, base.temperature),
            p.top_p == layered(self.top_p, base.top_p),
            p.max_tokens == layered(self.max_tokens, base.max_tokens),
            p.presence_penalty == layered(self.presence_penalty, base.presence_penalty),
            p.frequency_penalty == layered(self.frequency_penalty, base.frequency_penalty),
            p.stop_sequences == if self.stop_sequences@.len() > 0 {
                self.stop_sequences
            } else {
                base.stop_sequences
            },
    {
        ModelParameters {
            temperature: layer(self.temperature, base.temperature),
            top_p: layer(self.top_p, base.top_p),
            max_tokens: layer(self.max_tokens, base.max_tokens),
            presence_penalty: layer(self.presence_penalty, base.presence_penalty),
            frequency_penalty: layer(self.frequency_penalty, base.frequency_penalty),
            stop_sequences: if self.stop_sequences.len() > 0 {
                self.stop_sequences
            } else {
                base.stop_sequences
            },
        }
    }

    /// Moves every set value into `bounds` and keeps the stop sequences
    /// that are neither empty nor repeated. Nothing is rejected: the report
    /// says what was changed.
    pub fn clamp(&self, bounds: &ParameterBounds) -> (r: (ModelParameters, ClampReport))
        ensures
            r.0.temperature == clamped_u32(self.temperature, 0, bounds.max_temperature),
            r.0.top_p == clamped_u32(self.top_p, 0, bounds.max_top_p),
            r.0.max_tokens == clamped_u32(self.max_tokens, 1, bounds.max_tokens_ceiling),
            r.0.presence_penalty == clamped_i32(
                self.presence_penalty,
                bounds.min_penalty,
                bounds.max_penalty,
            ),
            r.0.frequency_penalty == clamped_i32(
                self.frequency_penalty,
                bounds.min_penalty,
                bounds.max_penalty,
            ),
            texts(r.0.stop_sequences@) == kept_stops(texts(self.stop_sequences@)),
            r.1.temperature == noted_u32(self.temperature, 0, bounds.max_temperature),
            r.1.top_p == noted_u32(self.top_p, 0, bounds.max_top_p),
            r.1.max_tokens == noted_u32(self.max_tokens, 1, bounds.max_tokens_ceiling),
            r.1.presence_penalty == noted_i32(
                self.presence_penalty,
                bounds.min_penalty,
                bounds.max_penalty,
            ),
            r.1.frequency_penalty == noted_i32(
                self.frequency_penalty,
                bounds.min_penalty,
                bounds.max_penalty,
            ),
            r.1.stop_sequences_dropped == self.stop_sequences@.len() - r.0.stop_sequences@.len(),
            bounds.well_formed() ==> r.0.within(*bounds),
            self.within(*bounds) ==> r.1.unchanged(),
    {
        let (temperature, temperature_note) = clamp_u32(self.temperature, 0, bounds.max_temperature);
        let (top_p, top_p_note) = clamp_u32(self.top_p, 0, bounds.max_top_p);
        let (max_tokens, max_tokens_note) = clamp_u32(self.max_tokens, 1, bounds.max_tokens_ceiling);
        let (presence_penalty, presence_note) = clamp_i32(
            self.presence_penalty,
            bounds.min_penalty,
            bounds.max_penalty,
        );
        let (frequency_penalty, frequency_note) = clamp_i32(
            self.frequency_penalty,
            bounds.min_penalty,
            bounds.max_penalty,
        );
        let stop_sequences = keep_stops(&self.stop_sequences);
        proof {
            let given = texts(self.stop_sequences@);
            lemma_kept_stops(given);
            lemma_kept_stops(kept_stops(given));
            lemma_kept_stops_fixed(kept_stops(given));
            assert(texts(stop_sequences@).len() == stop_sequences@.len());
            assert(given.len() == self.stop_sequences@.len());
        }
        let stop_sequences_dropped = self.stop_sequences.len() - stop_sequences.len();
        (
            ModelParameters {
                temperature,
                top_p,
                max_tokens,
                presence_penalty,
                frequency_penalty,
                stop_sequences,
            },
            ClampReport {
                temperature: temperature_note,
                top_p: top_p_note,
                max_tokens: max_tokens_note,
                presence_penalty: presence_note,
                frequency_penalty: frequency_note,
                stop_sequences_dropped,
            },
        )
    }
}

} // verus!
