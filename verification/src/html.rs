//! The dashboard: one page that lists every probe with its latest
//! reading, in ascending order of name.

use vstd::prelude::*;
use vstd::string::*;
use crate::cache::{Reading, TemperatureCache};
use crate::clock::{stamp_text, utc_stamp};
use crate::decimal::{append_degrees, degrees_text};
use crate::table::ascending;

verus! {

/// The page up to the first row of the table.
pub const PAGE_HEAD: &'static str = r#"<!DOCTYPE html>
<html>
<head>
    <meta charset="utf-8">
    <meta name="viewport" content="width=device-width, initial-scale=1, viewport-fit=cover">
    <meta http-equiv="refresh" content="15">

    <!-- Apple Mobile Web App -->
    <meta name="apple-mobile-web-app-capable" content="yes">
    <meta name="apple-mobile-web-app-status-bar-style" content="black-translucent">
    <meta name="apple-mobile-web-app-title" content="TempMon">

    <title>Temperature Monitor</title>
    <style>
        body {
            font-family: -apple-system, BlinkMacSystemFont, 'Segoe UI', Roboto, Oxygen, Ubuntu, sans-serif;
            max-width: 800px;
            margin: 40px auto;
            padding: 20px;
            background: #3b4252;
            color: #eceff4;
        }
        .container {
            background: #2e3440;
            border-radius: 8px;
            box-shadow: 0 2px 8px rgba(0,0,0,0.3);
            padding: 30px;
        }
        h1 {
            color: #eceff4;
            margin-top: 0;
            border-bottom: 3px solid #88c0d0;
            padding-bottom: 10px;
        }
        table {
            width: 100%;
            border-collapse: collapse;
            margin-top: 20px;
        }
        th {
            text-align: left;
            padding: 15px;
            background: #434c5e;
            color: #eceff4;
            font-weight: 600;
        }
        td {
            color: #d8dee9;
        }
        .footer {
            margin-top: 30px;
            padding-top: 20px;
            border-top: 1px solid #4c566a;
            color: #d8dee9;
            font-size: 0.9em;
        }
        .footer a {
            color: #88c0d0;
            text-decoration: none;
        }
        .footer a:hover {
            color: #81a1c1;
            text-decoration: underline;
        }
    </style>
</head>
<body>
    <div class="container">
        <h1>Temperature Monitor</h1>
        <table>
            <thead>
                <tr>
                    <th>Probe</th>
                    <th style="text-align: right;">Temperature</th>
                </tr>
            </thead>
            <tbody>
                "#;

/// The page between the last row and the time of rendering.
pub const PAGE_MIDDLE: &'static str = r#"
            </tbody>
        </table>
        <div class="footer">
            Last updated: "#;

/// The page after the time of rendering.
pub const PAGE_TAIL: &'static str = r#" UTC (auto-refresh every 15s)<br>
            <a href="/metrics">Prometheus Metrics</a> | <a href="/health">Health Check</a>
        </div>
    </div>
</body>
</html>"#;

/// A row up to the name of the probe.
pub const ROW_OPEN: &'static str = "<tr><td style='padding: 15px; border-bottom: 1px solid #4c566a;'>";

/// A row between the name and the reading.
pub const ROW_MIDDLE: &'static str =
    "</td><td style='padding: 15px; border-bottom: 1px solid #4c566a; text-align: right;'>";

/// The end of a row.
pub const ROW_CLOSE: &'static str = "</td></tr>";

/// What stands in place of a reading where the latest read failed.
pub const ERROR_CELL: &'static str = "<span style='color: #d08770; font-style: italic;'>Error</span>";

/// A reading up to its colour.
pub const VALUE_OPEN: &'static str = "<span style='color: ";

/// A reading between its colour and its number.
pub const VALUE_MIDDLE: &'static str = "; font-size: 2em; font-weight: bold;'>";

/// The unit and the end of a reading.
pub const VALUE_CLOSE: &'static str = "\u{b0}C</span>";

/// The band of temperature by which a reading is coloured.
#[derive(Clone, Copy, Debug, PartialEq, Eq, Structural)]
pub enum Band {
    /// Below 22 degrees.
    Cool,
    /// From 22 degrees to below 38.
    Mild,
    /// From 38 degrees to below 42.
    Warm,
    /// 42 degrees and above.
    Hot,
}

impl Band {
    /// The place of the band, the coldest first.
    pub open spec fn rank(self) -> nat {
        match self {
            Band::Cool => 0,
            Band::Mild => 1,
            Band::Warm => 2,
            Band::Hot => 3,
        }
    }

    /// The colour of the band.
    pub open spec fn colour_text(self) -> Seq<char> {
        match self {
            Band::Cool => "#88c0d0"@,
            Band::Mild => "#a3be8c"@,
            Band::Warm => "#ebcb8b"@,
            Band::Hot => "#bf616a"@,
        }
    }

    /// The colour of the band.
    pub fn colour(&self) -> (colour: &'static str)
        ensures
            colour@ == self.colour_text(),
    {
        match self {
            Band::Cool => "#88c0d0",
            Band::Mild => "#a3be8c",
            Band::Warm => "#ebcb8b",
            Band::Hot => "#bf616a",
        }
    }
}

/// The band of a temperature in thousandths of a degree.
pub open spec fn band_of(millis: int) -> Band {
    if millis < 22000 {
        Band::Cool
    } else if millis < 38000 {
        Band::Mild
    } else if millis < 42000 {
        Band::Warm
    } else {
        Band::Hot
    }
}

/// The band of a temperature in thousandths of a degree.
pub fn band(millis: i64) -> (band: Band)
    ensures
        band == band_of(millis as int),
{
    if millis < 22000 {
        Band::Cool
    } else if millis < 38000 {
        Band::Mild
    } else if millis < 42000 {
        Band::Warm
    } else {
        Band::Hot
    }
}

/// Every temperature has one band, and a warmer one never has a colder
/// band.
pub proof fn lemma_bands_ascend(colder: int, warmer: int)
    requires
        colder <= warmer,
    ensures
        band_of(colder).rank() <= band_of(warmer).rank(),
{
}

/// The cell that shows a reading: its number in the colour of its band,
/// or the error mark where there is none.
pub open spec fn cell_text(reading: Reading) -> Seq<char> {
    match reading {
        Some(millis) => VALUE_OPEN@ + band_of(millis as int).colour_text() + VALUE_MIDDLE@
            + degrees_text(millis as int) + VALUE_CLOSE@,
        None => ERROR_CELL@,
    }
}

/// The row of one probe.
pub open spec fn row_text(name: Seq<char>, reading: Reading) -> Seq<char> {
    ROW_OPEN@ + name + ROW_MIDDLE@ + cell_text(reading) + ROW_CLOSE@
}

/// The rows of the table, one after the other.
pub open spec fn rows_text(rows: Seq<(Seq<char>, Reading)>) -> Seq<char>
    decreases rows.len(),
{
    if rows.len() == 0 {
        Seq::empty()
    } else {
        rows_text(rows.drop_last()) + row_text(rows.last().0, rows.last().1)
    }
}

/// The whole page for the given rows, rendered at the given time.
pub open spec fn page_text(rows: Seq<(Seq<char>, Reading)>, stamp: Seq<char>) -> Seq<char> {
    PAGE_HEAD@ + rows_text(rows) + PAGE_MIDDLE@ + stamp + PAGE_TAIL@
}

/// The rows stand on the page in the order of the listing: row `i` comes
/// after the rows before it and before the rows after it.
pub proof fn lemma_rows_in_order(rows: Seq<(Seq<char>, Reading)>, i: int)
    requires
        0 <= i < rows.len(),
    ensures
        rows_text(rows) == rows_text(rows.take(i)) + row_text(rows[i].0, rows[i].1) + rows_text(
            rows.skip(i + 1),
        ),
    decreases rows.len(),
{
    if i == rows.len() - 1 {
        assert(rows.take(i) =~= rows.drop_last());
        assert(rows.skip(i + 1) =~= Seq::<(Seq<char>, Reading)>::empty());
        assert(rows_text(rows) =~= rows_text(rows.take(i)) + row_text(rows[i].0, rows[i].1)
            + rows_text(rows.skip(i + 1)));
    } else {
        let shorter = rows.drop_last();
        lemma_rows_in_order(shorter, i);
        assert(shorter.take(i) =~= rows.take(i));
        assert(rows.skip(i + 1).drop_last() =~= shorter.skip(i + 1));
        assert(rows.skip(i + 1).last() == rows.last());
        assert(shorter[i] == rows[i]);
        assert(rows_text(rows) =~= rows_text(rows.take(i)) + row_text(rows[i].0, rows[i].1)
            + rows_text(rows.skip(i + 1)));
    }
}

/// A probe without a reading is shown with the error mark and nothing
/// else in its cell.
pub proof fn lemma_absent_shows_error(name: Seq<char>)
    ensures
        row_text(name, None) == ROW_OPEN@ + name + ROW_MIDDLE@ + ERROR_CELL@ + ROW_CLOSE@,
{
}

/// Appends the cell that shows `reading` to `out`.
fn append_cell(out: &mut String, reading: Reading)
    ensures
        final(out)@ == old(out)@ + cell_text(reading),
{
    match reading {
        Some(millis) => {
            out.append(VALUE_OPEN);
            out.append(band(millis).colour());
            out.append(VALUE_MIDDLE);
            append_degrees(out, millis);
            out.append(VALUE_CLOSE);
            assert(final(out)@ =~= old(out)@ + cell_text(reading));
        },
        None => {
            out.append(ERROR_CELL);
        },
    }
}

/// Renders the page for the cache as it stands, with `stamp` as the time
/// of rendering. The rows come in ascending order of name.
pub fn render_temperature_page(temps: &TemperatureCache, stamp: &str) -> (page: String)
    ensures
        page@ == page_text(temps.listing(), stamp@),
        ascending(temps.listing()),
{
    proof {
        use_type_invariant(temps);
    }
    let ghost rows = temps.listing();
    let mut page = String::from_str(PAGE_HEAD);
    let count = temps.len();
    let mut i: usize = 0;
    assert(rows_text(rows.take(0)) =~= Seq::<char>::empty());
    assert(page@ =~= PAGE_HEAD@ + rows_text(rows.take(0)));
    while i < count
        invariant
            i <= count,
            count == rows.len(),
            rows == temps.listing(),
            page@ == PAGE_HEAD@ + rows_text(rows.take(i as int)),
        decreases count - i,
    {
        let ghost before = page@;
        page.append(ROW_OPEN);
        page.append(temps.name_at(i));
        page.append(ROW_MIDDLE);
        append_cell(&mut page, temps.reading_at(i));
        page.append(ROW_CLOSE);
        proof {
            assert(rows.take(i + 1).drop_last() =~= rows.take(i as int));
            assert(rows.take(i + 1).last() == rows[i as int]);
            assert(page@ =~= before + row_text(rows[i as int].0, rows[i as int].1));
            assert(page@ =~= PAGE_HEAD@ + rows_text(rows.take(i + 1)));
        }
        i += 1;
    }
    assert(rows.take(i as int) =~= rows);
    page.append(PAGE_MIDDLE);
    page.append(stamp);
    page.append(PAGE_TAIL);
    assert(page@ =~= page_text(rows, stamp@));
    page
}

/// Renders the page for the cache as it stands, stamped with the second
/// that the clock gives.
pub fn generate_temperature_page(temps: &TemperatureCache) -> (page: String)
    ensures
        exists|seconds: i64| page@ == page_text(temps.listing(), stamp_text(seconds)),
        ascending(temps.listing()),
{
    let stamp = utc_stamp();
    let ghost seconds = choose|seconds: i64| stamp@ == stamp_text(seconds);
    let page = render_temperature_page(temps, stamp.as_str());
    assert(page@ == page_text(temps.listing(), stamp_text(seconds)));
    page
}

} // verus!
