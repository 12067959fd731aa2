//! One scrape, as far as it is a decision: what becomes of the sink once the
//! upstream call has ended.
//!
//! A handler is idle until a request comes in, serves it, and is idle again.
//! While it serves, it fetches once, with no retry, and hands the outcome to
//! [`complete_scrape`]. Where the fetch failed, the scrape fails with the
//! same error and the sink keeps what it held: no stale snapshot is served in
//! its place. Where it succeeded, every measurement of the batch is mapped
//! and the updates are applied in the order of the batch; the handler then
//! renders the sink.

use crate::mapper::{
    lemma_batch_without_numbers, lemma_mapped_batch_has, lemma_mapped_batch_step,
    lemma_same_readings_same_names, map_batch, mapped, mapped_batch, metric_name_of,
    same_readings, METRICS_PREFIX,
};
use crate::measurement::{names_of, RawMeasurement, RawMeasurementView};
use crate::sink::{
    after_update, after_updates, lemma_after_updates_at, lemma_known_names_add_no_gauge,
    lemma_known_names_keep_order, lemma_later_updates_overwrite, lemma_order_after_updates_at,
    lemma_order_stays_free_of_duplicates, order_after_updates, Sink,
};
use vstd::prelude::*;

verus! {

/// Why a scrape failed.
#[derive(Clone, Copy, Debug, PartialEq, Eq, Structural)]
pub enum ScrapeError {
    /// The request to the logger could not be sent, or timed out.
    UpstreamUnreachable,
    /// The logger's answer was no JSON, or JSON of another shape.
    UpstreamDecodeError,
}

impl ScrapeError {
    /// The error in words.
    pub open spec fn message_text(self) -> Seq<char> {
        match self {
            ScrapeError::UpstreamUnreachable => "failed to send HTTP request"@,
            ScrapeError::UpstreamDecodeError => "failed to decode response into JSON"@,
        }
    }

    /// The error in words, for the one who reads the failed scrape.
    pub fn message(&self) -> (r: &'static str)
        ensures
            r@ == self.message_text(),
    {
        match self {
            ScrapeError::UpstreamUnreachable => "failed to send HTTP request",
            ScrapeError::UpstreamDecodeError => "failed to decode response into JSON",
        }
    }
}

/// The gauges after a batch is scraped into them.
pub open spec fn scraped(gauges: Map<Seq<char>, u64>, batch: Seq<RawMeasurementView>) -> Map<
    Seq<char>,
    u64,
> {
    after_updates(gauges, mapped_batch(METRICS_PREFIX@, batch))
}

/// The order of the names after a batch is scraped.
pub open spec fn order_scraped(order: Seq<Seq<char>>, batch: Seq<RawMeasurementView>) -> Seq<
    Seq<char>,
> {
    order_after_updates(order, mapped_batch(METRICS_PREFIX@, batch))
}

/// Ends a scrape with what the upstream call gave.
///
/// With a batch, the sink takes the batch's updates and the scrape succeeds:
/// the caller renders the sink. With an error, the sink is left as it was and
/// the scrape fails with that error.
pub fn complete_scrape(sink: &mut Sink, fetched: Result<Vec<RawMeasurement>, ScrapeError>) -> (r:
    Result<(), ScrapeError>)
    requires
        old(sink).wf(),
    ensures
        final(sink).wf(),
        match fetched {
            Ok(batch) => {
                &&& r is Ok
                &&& final(sink)@ == scraped(old(sink)@, batch.deep_view())
                &&& final(sink).order() == order_scraped(old(sink).order(), batch.deep_view())
            },
            Err(e) => {
                &&& r == Err::<(), ScrapeError>(e)
                &&& final(sink)@ == old(sink)@
                &&& final(sink).order() == old(sink).order()
            },
        },
{
    match fetched {
        Ok(batch) => {
            let updates = map_batch(METRICS_PREFIX, &batch);
            sink.apply_all(updates);
            Ok(())
        },
        Err(e) => Err(e),
    }
}

/// A batch without a single number that a 64-bit float stands for creates
/// no gauge: the sink is after the scrape what it was before.
pub proof fn lemma_scrape_without_numbers(
    gauges: Map<Seq<char>, u64>,
    order: Seq<Seq<char>>,
    batch: Seq<RawMeasurementView>,
)
    requires
        forall|i: int| 0 <= i < batch.len() ==> !((#[trigger] batch[i]).value is Number),
    ensures
        scraped(gauges, batch) == gauges,
        order_scraped(order, batch) == order,
{
    lemma_batch_without_numbers(METRICS_PREFIX@, batch);
}

/// A number scraped under a gauge name that no later number of the batch
/// has is stored under that gauge name. Later entries that are no numbers do
/// not matter, whatever their names.
pub proof fn lemma_scrape_stores_last_reading(
    gauges: Map<Seq<char>, u64>,
    batch: Seq<RawMeasurementView>,
    i: int,
)
    requires
        0 <= i < batch.len(),
        batch[i].value is Number,
        forall|j: int|
            i < j < batch.len() && (#[trigger] batch[j]).value is Number ==> metric_name_of(
                METRICS_PREFIX@,
                batch[j].name,
                batch[j].unit,
            ) != metric_name_of(METRICS_PREFIX@, batch[i].name, batch[i].unit),
    ensures
        scraped(gauges, batch).dom().contains(
            metric_name_of(METRICS_PREFIX@, batch[i].name, batch[i].unit),
        ),
        scraped(gauges, batch)[metric_name_of(METRICS_PREFIX@, batch[i].name, batch[i].unit)]
            == batch[i].value->Number_0,
    decreases batch.len(),
{
    let prefix = METRICS_PREFIX@;
    let name = metric_name_of(prefix, batch[i].name, batch[i].unit);
    let rest = batch.drop_last();
    lemma_mapped_batch_step(prefix, batch);
    match mapped(prefix, batch.last()) {
        Some(u) => {
            assert(mapped_batch(prefix, rest).push(u).drop_last() =~= mapped_batch(prefix, rest));
            assert(scraped(gauges, batch) == after_update(scraped(gauges, rest), u));
        },
        None => {},
    }
    if i == batch.len() - 1 {
    } else {
        let last = batch[batch.len() - 1];
        assert(rest[i] == batch[i]);
        assert forall|j: int|
            i < j < rest.len() && (#[trigger] rest[j]).value is Number implies metric_name_of(
            prefix,
            rest[j].name,
            rest[j].unit,
        ) != name by {
            assert(rest[j] == batch[j]);
        }
        lemma_scrape_stores_last_reading(gauges, rest, i);
        assert(last.value is Number ==> metric_name_of(prefix, last.name, last.unit) != name);
    }
}

/// A reading that a first scrape stored and a second scrape reports again,
/// under the same name and unit, is overwritten: its gauge was stored after
/// the first scrape, and after the second it holds the second number, given
/// that no later number of the second batch has the same gauge name. The
/// second scrape adds no name for it, so the gauge is there once.
pub proof fn lemma_second_reading_overwrites(
    gauges: Map<Seq<char>, u64>,
    order: Seq<Seq<char>>,
    first: Seq<RawMeasurementView>,
    second: Seq<RawMeasurementView>,
    i: int,
    j: int,
)
    requires
        0 <= i < first.len(),
        0 <= j < second.len(),
        first[i].value is Number,
        second[j].value is Number,
        first[i].name == second[j].name,
        first[i].unit == second[j].unit,
        forall|k: int|
            j < k < second.len() && (#[trigger] second[k]).value is Number ==> metric_name_of(
                METRICS_PREFIX@,
                second[k].name,
                second[k].unit,
            ) != metric_name_of(METRICS_PREFIX@, second[j].name, second[j].unit),
    ensures
        ({
            let name = metric_name_of(METRICS_PREFIX@, second[j].name, second[j].unit);
            let once = scraped(gauges, first);
            let twice = scraped(once, second);
            &&& once.dom().contains(name)
            &&& order_scraped(order, first).contains(name)
            &&& twice.dom().contains(name)
            &&& twice[name] == second[j].value->Number_0
            &&& order.no_duplicates() ==> order_scraped(
                order_scraped(order, first),
                second,
            ).no_duplicates()
        }),
{
    let prefix = METRICS_PREFIX@;
    let name = metric_name_of(prefix, second[j].name, second[j].unit);
    lemma_mapped_batch_has(prefix, first, i);
    lemma_after_updates_at(gauges, mapped_batch(prefix, first), name);
    lemma_order_after_updates_at(order, mapped_batch(prefix, first), name);
    lemma_scrape_stores_last_reading(scraped(gauges, first), second, j);
    if order.no_duplicates() {
        lemma_order_stays_free_of_duplicates(order, mapped_batch(prefix, first));
        lemma_order_stays_free_of_duplicates(
            order_scraped(order, first),
            mapped_batch(prefix, second),
        );
    }
}

/// A second scrape of the same readings with other numbers overwrites: every
/// gauge holds what the second scrape alone would have stored, and the sink
/// has after the second scrape the names that it had after the first, each
/// of them once and in the same order.
pub proof fn lemma_rescrape_overwrites(
    gauges: Map<Seq<char>, u64>,
    order: Seq<Seq<char>>,
    first: Seq<RawMeasurementView>,
    second: Seq<RawMeasurementView>,
)
    requires
        same_readings(first, second),
    ensures
        scraped(scraped(gauges, first), second) == scraped(gauges, second),
        scraped(scraped(gauges, first), second).dom() == scraped(gauges, first).dom(),
        order_scraped(order_scraped(order, first), second) == order_scraped(order, first),
{
    let prefix = METRICS_PREFIX@;
    let one = mapped_batch(prefix, first);
    let two = mapped_batch(prefix, second);
    lemma_same_readings_same_names(prefix, first, second);
    assert(names_of(one) =~= names_of(two));
    lemma_later_updates_overwrite(gauges, one, two);
    let between = after_updates(gauges, one);
    let listed = order_after_updates(order, one);
    assert forall|n: Seq<char>| names_of(two).contains(n) implies between.dom().contains(n) by {
        lemma_after_updates_at(gauges, one, n);
    }
    lemma_known_names_add_no_gauge(between, two);
    assert forall|n: Seq<char>| names_of(two).contains(n) implies listed.contains(n) by {
        lemma_order_after_updates_at(order, one, n);
    }
    lemma_known_names_keep_order(listed, two);
}

} // verus!
