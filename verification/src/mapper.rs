//! The measurement mapper: from one entry of the logger's answer to at most
//! one gauge update.
//!
//! A measurement whose value is a number that a 64-bit float stands for
//! becomes an update; every other measurement is dropped without an error.
//! The gauge's name is made of the prefix, the measurement's name as it came
//! and, where the measurement has a unit that is not empty, the unit in lower
//! case, joined by underscores. A unit that is present but empty counts as no
//! unit: it adds nothing to the name, not even an underscore.

use crate::measurement::{
    names_of, GaugeUpdate, GaugeUpdateView, RawMeasurement, RawMeasurementView, RawValue,
};
use crate::text::{ascii_lowered, lemma_lowercased_ascii, lowercase, lowercased};
use vstd::prelude::*;
use vstd::utf8::is_ascii_chars;

verus! {

/// The prefix that every gauge name of the bridge starts with.
pub const METRICS_PREFIX: &'static str = "dsmr_logger";

/// The unit handed to [`metric_name`], as a sequence of characters.
pub open spec fn unit_view(unit: Option<&str>) -> Option<Seq<char>> {
    match unit {
        Some(u) => Some(u@),
        None => None,
    }
}

/// The gauge name for a measurement name and its unit under a prefix: the
/// prefix, an underscore and the name, followed by an underscore and the unit
/// in lower case where there is a unit and it is not empty.
pub open spec fn metric_name_of(prefix: Seq<char>, name: Seq<char>, unit: Option<Seq<char>>) -> Seq<
    char,
> {
    match unit {
        Some(u) => if u.len() > 0 {
            prefix + seq!['_'] + name + seq!['_'] + lowercased(u)
        } else {
            prefix + seq!['_'] + name
        },
        None => prefix + seq!['_'] + name,
    }
}

/// The update that a measurement gives rise to, if any.
pub open spec fn mapped(prefix: Seq<char>, m: RawMeasurementView) -> Option<GaugeUpdateView> {
    match m.value {
        RawValue::Number(bits) => Some(
            GaugeUpdateView {
                metric_name: metric_name_of(prefix, m.name, m.unit),
                value_bits: bits,
            },
        ),
        RawValue::UnrepresentableNumber => None,
        RawValue::Other => None,
    }
}

/// The updates that a batch gives rise to, in the order of the batch.
pub open spec fn mapped_batch(prefix: Seq<char>, batch: Seq<RawMeasurementView>) -> Seq<
    GaugeUpdateView,
> {
    batch.filter_map(|m: RawMeasurementView| mapped(prefix, m))
}

/// Builds the gauge name for a measurement name and its unit.
pub fn metric_name(prefix: &str, name: &str, unit: Option<&str>) -> (r: String)
    ensures
        r@ == metric_name_of(prefix@, name@, unit_view(unit)),
{
    proof {
        reveal_strlit("_");
    }
    let mut out = String::from_str(prefix);
    out.append("_");
    out.append(name);
    assert("_"@ =~= seq!['_']);
    match unit {
        Some(u) => {
            if !u.is_empty() {
                let low = lowercase(u);
                out.append("_");
                out.append(low.as_str());
            }
        },
        None => {},
    }
    out
}

/// Maps one measurement to its gauge update, or to nothing where its value
/// is no number that a 64-bit float stands for.
pub fn map_measurement(prefix: &str, m: &RawMeasurement) -> (r: Option<GaugeUpdate>)
    ensures
        r.deep_view() == mapped(prefix@, m@),
{
    match m.value {
        RawValue::Number(bits) => {
            let unit: Option<&str> = match &m.unit {
                Some(u) => Some(u.as_str()),
                None => None,
            };
            Some(
                GaugeUpdate {
                    metric_name: metric_name(prefix, m.name.as_str(), unit),
                    value_bits: bits,
                },
            )
        },
        RawValue::UnrepresentableNumber => None,
        RawValue::Other => None,
    }
}

/// Maps a batch, each measurement independently of the others, and returns
/// the updates in the order of the batch.
pub fn map_batch(prefix: &str, batch: &Vec<RawMeasurement>) -> (r: Vec<GaugeUpdate>)
    ensures
        r.deep_view() == mapped_batch(prefix@, batch.deep_view()),
{
    let mut out: Vec<GaugeUpdate> = Vec::new();
    let mut i: usize = 0;
    assert(batch.deep_view().take(0) =~= Seq::empty());
    while i < batch.len()
        invariant
            i <= batch.len(),
            out.deep_view() == mapped_batch(prefix@, batch.deep_view().take(i as int)),
        decreases batch.len() - i,
    {
        let ghost before = out.deep_view();
        let step = map_measurement(prefix, &batch[i]);
        proof {
            batch.deep_view().lemma_filter_map_take_succ(
                |m: RawMeasurementView| mapped(prefix@, m),
                i as int,
            );
        }
        match step {
            Some(u) => {
                out.push(u);
                assert(out.deep_view() =~= before.push(u@));
            },
            None => {},
        }
        i += 1;
    }
    assert(batch.deep_view().take(batch.len() as int) =~= batch.deep_view());
    out
}

/// Whether `s` ends in `suffix`.
pub open spec fn ends_with(s: Seq<char>, suffix: Seq<char>) -> bool {
    suffix.len() <= s.len() && s.subrange(s.len() - suffix.len(), s.len() as int) == suffix
}

/// A measurement whose value is no number that a 64-bit float stands for
/// gives no update, whatever its name and unit.
pub proof fn lemma_non_numeric_is_dropped(prefix: Seq<char>, m: RawMeasurementView)
    requires
        !(m.value is Number),
    ensures
        mapped(prefix, m) is None,
{
}

/// A measurement whose value is such a number gives exactly one update: the
/// number, under the gauge name of the measurement's name and unit. The name
/// depends on the prefix, the measurement's name and its unit alone.
pub proof fn lemma_numeric_is_kept(prefix: Seq<char>, m: RawMeasurementView)
    requires
        m.value is Number,
    ensures
        mapped(prefix, m) == Some(
            GaugeUpdateView {
                metric_name: metric_name_of(prefix, m.name, m.unit),
                value_bits: m.value->Number_0,
            },
        ),
{
}

/// The updates of a batch are those of the batch without its last entry,
/// followed by the update of the last entry where it gives one.
pub proof fn lemma_mapped_batch_step(prefix: Seq<char>, batch: Seq<RawMeasurementView>)
    requires
        batch.len() > 0,
    ensures
        mapped_batch(prefix, batch) == match mapped(prefix, batch.last()) {
            Some(u) => mapped_batch(prefix, batch.drop_last()).push(u),
            None => mapped_batch(prefix, batch.drop_last()),
        },
{
    match mapped(prefix, batch.last()) {
        Some(u) => {
            assert(mapped_batch(prefix, batch.drop_last()) + seq![u] =~= mapped_batch(
                prefix,
                batch.drop_last(),
            ).push(u));
        },
        None => {},
    }
}

/// The gauge name of every number in a batch is among the names of the
/// batch's updates.
pub proof fn lemma_mapped_batch_has(prefix: Seq<char>, batch: Seq<RawMeasurementView>, i: int)
    requires
        0 <= i < batch.len(),
        batch[i].value is Number,
    ensures
        names_of(mapped_batch(prefix, batch)).contains(
            metric_name_of(prefix, batch[i].name, batch[i].unit),
        ),
    decreases batch.len(),
{
    let name = metric_name_of(prefix, batch[i].name, batch[i].unit);
    let rest = batch.drop_last();
    let all = mapped_batch(prefix, batch);
    lemma_mapped_batch_step(prefix, batch);
    if i == batch.len() - 1 {
        assert(names_of(all)[all.len() - 1] == name);
    } else {
        assert(rest[i] == batch[i]);
        lemma_mapped_batch_has(prefix, rest, i);
        let k = choose|k: int|
            0 <= k < names_of(mapped_batch(prefix, rest)).len() && names_of(
                mapped_batch(prefix, rest),
            )[k] == name;
        assert(names_of(all)[k] == name);
    }
}

/// A batch without a single such number gives no update at all.
pub proof fn lemma_batch_without_numbers(prefix: Seq<char>, batch: Seq<RawMeasurementView>)
    requires
        forall|i: int| 0 <= i < batch.len() ==> !((#[trigger] batch[i]).value is Number),
    ensures
        mapped_batch(prefix, batch) == Seq::<GaugeUpdateView>::empty(),
    decreases batch.len(),
{
    if batch.len() > 0 {
        lemma_batch_without_numbers(prefix, batch.drop_last());
    }
}

/// With a unit that is not empty and made of ASCII characters, the gauge
/// name ends in an underscore and the unit with its letters `A` to `Z`
/// turned into `a` to `z`; no upper-case ASCII letter is left in that last
/// segment.
pub proof fn lemma_ascii_unit_is_lowercased(prefix: Seq<char>, name: Seq<char>, unit: Seq<char>)
    requires
        unit.len() > 0,
        is_ascii_chars(unit),
    ensures
        metric_name_of(prefix, name, Some(unit)) == prefix + seq!['_'] + name + seq!['_']
            + ascii_lowered(unit),
        ends_with(metric_name_of(prefix, name, Some(unit)), seq!['_'] + ascii_lowered(unit)),
        forall|i: int|
            0 <= i < unit.len() ==> !('A' <= #[trigger] ascii_lowered(unit)[i] && ascii_lowered(
                unit,
            )[i] <= 'Z'),
{
    lemma_lowercased_ascii(unit);
    let full = metric_name_of(prefix, name, Some(unit));
    let tail = seq!['_'] + ascii_lowered(unit);
    assert(full.subrange(full.len() - tail.len(), full.len() as int) =~= tail);
}

/// A measurement with the unit `V` has a gauge name that ends in `_v` and
/// not in `_V`, and so has the update that it gives.
pub proof fn lemma_volt_is_lowercased(prefix: Seq<char>, m: RawMeasurementView)
    requires
        m.unit == Some(seq!['V']),
    ensures
        ends_with(metric_name_of(prefix, m.name, m.unit), seq!['_', 'v']),
        !ends_with(metric_name_of(prefix, m.name, m.unit), seq!['_', 'V']),
        mapped(prefix, m) matches Some(u) ==> ends_with(u.metric_name, seq!['_', 'v'])
            && !ends_with(u.metric_name, seq!['_', 'V']),
{
    let unit = seq!['V'];
    lemma_ascii_unit_is_lowercased(prefix, m.name, unit);
    assert(ascii_lowered(unit) =~= seq!['v']);
    assert(seq!['_'] + ascii_lowered(unit) =~= seq!['_', 'v']);
    let full = metric_name_of(prefix, m.name, m.unit);
    assert(full.subrange(full.len() - 2, full.len() as int)[1] == 'v');
}

/// A measurement without a unit, or with an empty one, has a gauge name made
/// of the prefix, an underscore and the measurement's name; the gauge name
/// ends in that name, so no unit segment follows it.
pub proof fn lemma_no_unit_no_segment(prefix: Seq<char>, m: RawMeasurementView)
    requires
        m.unit matches Some(u) ==> u.len() == 0,
    ensures
        metric_name_of(prefix, m.name, m.unit) == prefix + seq!['_'] + m.name,
        ends_with(metric_name_of(prefix, m.name, m.unit), m.name),
        mapped(prefix, m) matches Some(u) ==> u.metric_name == prefix + seq!['_'] + m.name,
{
    let bare = metric_name_of(prefix, m.name, m.unit);
    assert(bare.subrange(bare.len() - m.name.len(), bare.len() as int) =~= m.name);
}

/// A unit that is not empty adds exactly one segment to the gauge name that
/// the measurement has without it: an underscore and the unit in lower case.
pub proof fn lemma_unit_adds_one_segment(prefix: Seq<char>, name: Seq<char>, unit: Seq<char>)
    requires
        unit.len() > 0,
    ensures
        metric_name_of(prefix, name, Some(unit)) == metric_name_of(prefix, name, None) + seq!['_']
            + lowercased(unit),
        ends_with(metric_name_of(prefix, name, Some(unit)), seq!['_'] + lowercased(unit)),
{
    let full = metric_name_of(prefix, name, Some(unit));
    let tail = seq!['_'] + lowercased(unit);
    assert(full.subrange(full.len() - tail.len(), full.len() as int) =~= tail);
}

/// Whether two batches report the same readings but for their numbers:
/// entry by entry the same name and unit, and a number in the one where
/// there is a number in the other.
pub open spec fn same_readings(
    first: Seq<RawMeasurementView>,
    second: Seq<RawMeasurementView>,
) -> bool {
    &&& first.len() == second.len()
    &&& forall|i: int|
        0 <= i < first.len() ==> {
            &&& (#[trigger] first[i]).name == second[i].name
            &&& first[i].unit == second[i].unit
            &&& (first[i].value is Number <==> second[i].value is Number)
        }
}

/// Two batches with the same readings give updates under the same names, in
/// the same order.
pub proof fn lemma_same_readings_same_names(
    prefix: Seq<char>,
    first: Seq<RawMeasurementView>,
    second: Seq<RawMeasurementView>,
)
    requires
        same_readings(first, second),
    ensures
        mapped_batch(prefix, first).len() == mapped_batch(prefix, second).len(),
        forall|i: int|
            0 <= i < mapped_batch(prefix, first).len() ==> (#[trigger] mapped_batch(
                prefix,
                first,
            )[i]).metric_name == mapped_batch(prefix, second)[i].metric_name,
    decreases first.len(),
{
    if first.len() > 0 {
        assert(first.last().name == second.last().name);
        assert(first[first.len() - 1].unit == second[second.len() - 1].unit);
        assert forall|i: int| 0 <= i < first.drop_last().len() implies {
            &&& (#[trigger] first.drop_last()[i]).name == second.drop_last()[i].name
            &&& first.drop_last()[i].unit == second.drop_last()[i].unit
            &&& (first.drop_last()[i].value is Number <==> second.drop_last()[i].value is Number)
        } by {
            assert(first[i].name == second[i].name);
        }
        lemma_same_readings_same_names(prefix, first.drop_last(), second.drop_last());
    }
}

} // verus!
