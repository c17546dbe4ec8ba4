//! The text of a report: one line per peer and measure, under a heading for
//! each measure.

use crate::reduce::durations_error_with_ci;
use crate::reduce::durations_mean;
use crate::reduce::error_of;
use crate::reduce::mean_of;
use crate::span::nanos;
use crate::span::nanos_seq;
use crate::store::entry_views;
use std::time::Duration;
use vstd::prelude::*;

verus! {

/// The text that the `{:?}` format gives for a string: the string between
/// double quotes, with its special characters escaped.
pub uninterp spec fn quoted(text: Seq<char>) -> Seq<char>;

/// The text that the `{:?}` format gives for a duration of `length`
/// nanoseconds: a decimal number with a unit.
pub uninterp spec fn shown(length: nat) -> Seq<char>;

/// Formats a string with `{:?}`.
#[verifier::external_body]
fn quote(text: &String) -> (out: String)
    ensures
        out@ == quoted(text@),
{
    format!("{:?}", text)
}

/// Formats a duration with `{:?}`. The text depends on the length of the
/// duration alone.
#[verifier::external_body]
fn show(length: &Duration) -> (out: String)
    ensures
        out@ == shown(nanos(*length)),
{
    format!("{:?}", length)
}

/// The line of one peer, ended by a line break. A window with samples gives
/// the peer, the mean and the error of the mean, then `unit`; an empty
/// window gives `missing` and the peer, and no number.
pub open spec fn entry_text(
    peer: Seq<char>,
    samples: Seq<nat>,
    missing: Seq<char>,
    unit: Seq<char>,
) -> Seq<char> {
    if samples.len() == 0 {
        missing + quoted(peer) + "\n"@
    } else {
        quoted(peer) + " "@ + shown(mean_of(samples)) + "±"@ + shown(error_of(samples)) + unit
            + "\n"@
    }
}

/// The lines of the entries, in the order of the entries.
pub open spec fn section_text(
    entries: Seq<(Seq<char>, Seq<nat>)>,
    missing: Seq<char>,
    unit: Seq<char>,
) -> Seq<char>
    decreases entries.len(),
{
    if entries.len() == 0 {
        Seq::empty()
    } else {
        section_text(entries.drop_last(), missing, unit) + entry_text(
            entries.last().0,
            entries.last().1,
            missing,
            unit,
        )
    }
}

/// The line of one peer in the section of ping latencies.
pub open spec fn ping_text(peer: Seq<char>, samples: Seq<nat>) -> Seq<char> {
    entry_text(peer, samples, "No ping data for peer "@, ""@)
}

/// The line of one peer in the section of transmission rates.
pub open spec fn transmission_text(peer: Seq<char>, samples: Seq<nat>) -> Seq<char> {
    entry_text(peer, samples, "No transmission data for peer "@, " per byte"@)
}

/// The whole report: the reporting peer, then the ping section and the
/// transmission section, each under its heading.
pub open spec fn report_text(
    peer_id: Seq<char>,
    pings: Seq<(Seq<char>, Seq<nat>)>,
    rates: Seq<(Seq<char>, Seq<nat>)>,
) -> Seq<char> {
    quoted(peer_id) + "\nPing mean for each peer:\n"@ + section_text(
        pings,
        "No ping data for peer "@,
        ""@,
    ) + "Transmission rate mean by peer:\n"@ + section_text(
        rates,
        "No transmission data for peer "@,
        " per byte"@,
    )
}

/// Every peer has a line of its own: the text of an entry is not empty and
/// ends with a line break, whether or not the window holds samples.
pub proof fn lemma_entry_is_a_line(
    peer: Seq<char>,
    samples: Seq<nat>,
    missing: Seq<char>,
    unit: Seq<char>,
)
    ensures
        entry_text(peer, samples, missing, unit).len() > 0,
        entry_text(peer, samples, missing, unit).last() == '\n',
{
    reveal_strlit("\n");
    assert("\n"@.len() == 1 && "\n"@[0] == '\n');
}

/// Renders the line of one peer.
pub fn entry_line(peer: &String, window: &Vec<Duration>, missing: &str, unit: &str) -> (line:
    String)
    ensures
        line@ == entry_text(peer@, nanos_seq(window@), missing@, unit@),
{
    match (durations_mean(window), durations_error_with_ci(window)) {
        (Some(mean), Some(error)) => {
            let mut line = quote(peer);
            line.append(" ");
            line.append(show(&mean).as_str());
            line.append("±");
            line.append(show(&error).as_str());
            line.append(unit);
            line.append("\n");
            line
        },
        _ => {
            let mut line = String::from_str(missing);
            line.append(quote(peer).as_str());
            line.append("\n");
            line
        },
    }
}

/// Renders the line of one peer in the section of ping latencies.
pub fn ping_line(peer: &String, window: &Vec<Duration>) -> (line: String)
    ensures
        line@ == ping_text(peer@, nanos_seq(window@)),
{
    entry_line(peer, window, "No ping data for peer ", "")
}

/// Renders the line of one peer in the section of transmission rates.
pub fn transmission_line(peer: &String, window: &Vec<Duration>) -> (line: String)
    ensures
        line@ == transmission_text(peer@, nanos_seq(window@)),
{
    entry_line(peer, window, "No transmission data for peer ", " per byte")
}

/// Renders the lines of a list of entries, in their order.
pub fn section(entries: &Vec<(String, Vec<Duration>)>, missing: &str, unit: &str) -> (text:
    String)
    ensures
        text@ == section_text(entry_views(entries@), missing@, unit@),
{
    let ghost views = entry_views(entries@);
    let mut text = String::new();
    let mut i: usize = 0;
    while i < entries.len()
        invariant
            i <= entries.len(),
            views == entry_views(entries@),
            text@ == section_text(views.take(i as int), missing@, unit@),
        decreases entries.len() - i,
    {
        let entry = &entries[i];
        let line = entry_line(&entry.0, &entry.1, missing, unit);
        proof {
            assert(views.take(i + 1).drop_last() =~= views.take(i as int));
            assert(views.take(i + 1).last() == views[i as int]);
        }
        text.append(line.as_str());
        i = i + 1;
    }
    proof {
        assert(views.take(i as int) =~= views);
    }
    text
}

/// Renders a report from the listed windows of the two measures.
pub fn render_report(
    peer_id: &String,
    pings: &Vec<(String, Vec<Duration>)>,
    rates: &Vec<(String, Vec<Duration>)>,
) -> (text: String)
    ensures
        text@ == report_text(peer_id@, entry_views(pings@), entry_views(rates@)),
{
    let mut text = quote(peer_id);
    text.append("\nPing mean for each peer:\n");
    text.append(section(pings, "No ping data for peer ", "").as_str());
    text.append("Transmission rate mean by peer:\n");
    text.append(section(rates, "No transmission data for peer ", " per byte").as_str());
    text
}

} // verus!
