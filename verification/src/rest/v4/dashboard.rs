//! The public dashboard (`GET /v4/dashboard`): merchant and exchange
//! counts and their history from the global reports.

use vstd::prelude::*;

verus! {

/// The dashboard's figures.
#[derive(Debug)]
pub struct Dashboard {
    pub total_merchants: i64,
    pub total_merchants_chart: Vec<ChartEntry>,
    pub verified_merchants_1y: i64,
    pub verified_merchants_1y_chart: Vec<ChartEntry>,
    pub total_exchanges: i64,
    pub total_exchanges_chart: Vec<ChartEntry>,
    pub verified_exchanges_1y: i64,
}

/// One point of a chart.
#[derive(Debug)]
pub struct ChartEntry {
    pub date: String,
    pub value: i64,
}

/// The figures of one daily global report.
#[derive(Debug)]
pub struct DailyReport {
    pub date: String,
    pub total_elements: i64,
    pub total_atms: i64,
    pub up_to_date_elements: i64,
}

/// The three charts.
#[derive(Debug, Clone, Copy, PartialEq, Eq, Structural)]
pub enum Chart {
    TotalMerchants,
    VerifiedMerchants,
    TotalExchanges,
}

/// The value of a report on a chart: merchants are the places that are
/// not ATMs, and exchanges are the ATMs.
pub open spec fn chart_value(r: DailyReport, c: Chart) -> int {
    match c {
        Chart::TotalMerchants => r.total_elements - r.total_atms,
        Chart::VerifiedMerchants => r.up_to_date_elements as int,
        Chart::TotalExchanges => r.total_atms as int,
    }
}

/// Every report's merchant count fits.
pub open spec fn charts_fit(reports: Seq<DailyReport>) -> bool {
    forall|i: int|
        0 <= i < reports.len() ==> i64::MIN <= #[trigger] chart_value(reports[i], Chart::TotalMerchants)
            <= i64::MAX
}

/// `entries` is chart `c` of `reports`: one point per report, in order.
pub open spec fn is_chart(entries: Seq<ChartEntry>, reports: Seq<DailyReport>, c: Chart) -> bool {
    &&& entries.len() == reports.len()
    &&& forall|i: int|
        0 <= i < entries.len() ==> (#[trigger] entries[i]).value == chart_value(reports[i], c)
            && entries[i].date@ == reports[i].date@
}

/// The merchant and exchange charts split each report's places: each chart
/// has one point per report and, at every point, merchants and exchanges add up to the report's total, exchanges
/// are its ATMs, and verified merchants are its up-to-date places.
pub proof fn law_charts_split_places(
    reports: Seq<DailyReport>,
    merchants: Seq<ChartEntry>,
    exchanges: Seq<ChartEntry>,
    verified: Seq<ChartEntry>,
)
    requires
        is_chart(merchants, reports, Chart::TotalMerchants),
        is_chart(exchanges, reports, Chart::TotalExchanges),
        is_chart(verified, reports, Chart::VerifiedMerchants),
    ensures
        merchants.len() == reports.len() && exchanges.len() == reports.len() && verified.len()
            == reports.len(),
        forall|i: int|
            0 <= i < reports.len() ==> (#[trigger] merchants[i]).value + exchanges[i].value
                == reports[i].total_elements,
        forall|i: int| 0 <= i < reports.len() ==> (#[trigger] exchanges[i]).value == reports[i].total_atms,
        forall|i: int|
            0 <= i < reports.len() ==> (#[trigger] verified[i]).value == reports[i].up_to_date_elements,
        forall|i: int|
            0 <= i < reports.len() ==> (#[trigger] merchants[i]).date@ == reports[i].date@
                && exchanges[i].date@ == reports[i].date@,
{
    assert forall|i: int| 0 <= i < reports.len() implies (#[trigger] merchants[i]).value
        + exchanges[i].value == reports[i].total_elements by {
        assert(merchants[i].value == chart_value(reports[i], Chart::TotalMerchants));
        assert(exchanges[i].value == chart_value(reports[i], Chart::TotalExchanges));
    }
    assert forall|i: int| 0 <= i < reports.len() implies (#[trigger] exchanges[i]).value
        == reports[i].total_atms by {
        assert(exchanges[i].value == chart_value(reports[i], Chart::TotalExchanges));
    }
    assert forall|i: int| 0 <= i < reports.len() implies (#[trigger] verified[i]).value
        == reports[i].up_to_date_elements by {
        assert(verified[i].value == chart_value(reports[i], Chart::VerifiedMerchants));
    }
    assert forall|i: int| 0 <= i < reports.len() implies (#[trigger] merchants[i]).date@
        == reports[i].date@ && exchanges[i].date@ == reports[i].date@ by {
        assert(merchants[i].date@ == reports[i].date@);
        assert(exchanges[i].date@ == reports[i].date@);
    }
}

/// Chart `c` of the daily reports.
pub fn chart(reports: &Vec<DailyReport>, c: Chart) -> (r: Vec<ChartEntry>)
    requires
        charts_fit(reports@),
    ensures
        is_chart(r@, reports@, c),
{
    let mut out: Vec<ChartEntry> = Vec::new();
    let mut i: usize = 0;
    while i < reports.len()
        invariant
            i <= reports@.len(),
            charts_fit(reports@),
            out@.len() == i,
            forall|j: int|
                0 <= j < i ==> (#[trigger] out@[j]).value == chart_value(reports@[j], c)
                    && out@[j].date@ == reports@[j].date@,
        decreases reports@.len() - i,
    {
        let r = &reports[i];
        assert(i64::MIN <= chart_value(reports@[i as int], Chart::TotalMerchants) <= i64::MAX);
        let value = match c {
            Chart::TotalMerchants => r.total_elements - r.total_atms,
            Chart::VerifiedMerchants => r.up_to_date_elements,
            Chart::TotalExchanges => r.total_atms,
        };
        out.push(ChartEntry { date: r.date.clone(), value });
        i = i + 1;
    }
    out
}

} // verus!
