//! Request-level decisions of the dashboard's screens: how the chart query
//! parameters resolve to a selection, which devices the selector lists,
//! which navigation link is active, and how static scripts are served.

use vstd::prelude::*;
use crate::range::Range;
use crate::text::{push_str, str_eq, views_of};
use crate::util::chart_fragment_url;
use vstd::string::StringSliceAdditionalSpecFns;

verus! {

/// The device selector value meaning "every device".
pub const ALL_DEVICES: &'static str = "all";

/// The raw query parameters of the chart screen.
#[derive(Debug, Default, Clone)]
pub struct ChartQuery {
    pub metric: Option<String>,
    pub device: Option<String>,
    pub range: Option<String>,
}

/// What the chart screen shows.
#[derive(Debug, Clone)]
pub struct ChartSelection {
    /// `None` when no metric was requested and none is known.
    pub metric: Option<String>,
    /// A device id, or `all`.
    pub device: String,
    pub range: Range,
}

/// The view of an optional string.
pub open spec fn opt_view(o: Option<String>) -> Option<Seq<char>> {
    match o {
        Some(s) => Some(s@),
        None => None,
    }
}

/// An explicit, non-empty `metric` wins; otherwise the first known metric.
pub open spec fn selected_metric(requested: Option<Seq<char>>, known: Seq<Seq<char>>) -> Option<Seq<char>> {
    match requested {
        Some(m) if m.len() > 0 => Some(m),
        _ => if known.len() > 0 { Some(known[0]) } else { None },
    }
}

/// An explicit, non-empty `device`; otherwise `all`.
pub open spec fn selected_device(requested: Option<Seq<char>>) -> Seq<char> {
    match requested {
        Some(d) if d.len() > 0 => d,
        _ => "all"@,
    }
}

/// A recognised `range` code; otherwise one hour.
pub open spec fn selected_range(requested: Option<Seq<char>>) -> Range {
    match requested {
        Some(s) => match Range::parse_view(s) {
            Some(r) => r,
            None => Range::Hour1,
        },
        None => Range::Hour1,
    }
}

fn nonempty(o: &Option<String>) -> (r: Option<String>)
    ensures
        opt_view(r) == (match opt_view(*o) {
            Some(s) if s.len() > 0 => Some(s),
            _ => None,
        }),
{
    match o {
        Some(s) => if s.as_str().is_empty() {
            None
        } else {
            Some(s.clone())
        },
        None => None,
    }
}

/// Resolves query params against the list of known metrics: an explicit
/// `metric` wins, otherwise the first known metric is used.
pub fn resolve_selection(query: &ChartQuery, known_metrics: &[String]) -> (r: ChartSelection)
    ensures
        opt_view(r.metric) == selected_metric(opt_view(query.metric), views_of(known_metrics@)),
        r.device@ == selected_device(opt_view(query.device)),
        r.range == selected_range(opt_view(query.range)),
{
    let metric = match nonempty(&query.metric) {
        Some(m) => Some(m),
        None => if known_metrics.len() > 0 {
            Some(known_metrics[0].clone())
        } else {
            None
        },
    };
    let device = match nonempty(&query.device) {
        Some(d) => d,
        None => {
            let mut d = String::new();
            push_str(&mut d, ALL_DEVICES);
            d
        },
    };
    let range = match &query.range {
        Some(s) => match Range::parse(s.as_str()) {
            Some(r) => r,
            None => Range::Hour1,
        },
        None => Range::Hour1,
    };
    ChartSelection { metric, device, range }
}

impl ChartSelection {
    /// The device to filter on, or `None` for every device.
    pub fn device_filter(&self) -> (r: Option<&str>)
        ensures
            r is Some <==> self.device@ != "all"@,
            r matches Some(d) ==> d@ == self.device@,
    {
        if str_eq(self.device.as_str(), ALL_DEVICES) {
            None
        } else {
            Some(self.device.as_str())
        }
    }

    /// The URL the chart fragment polls for this selection (an empty metric
    /// when there is none).
    pub fn fragment_url(&self) -> (r: String)
        ensures
            r@ == crate::util::chart_fragment_url_view(
                match self.metric {
                    Some(m) => vstd::utf8::encode_utf8(m@),
                    None => "".spec_bytes(),
                },
                vstd::utf8::encode_utf8(self.device@),
                self.range.code_view_bytes(),
            ),
    {
        let metric: &str = match &self.metric {
            Some(m) => m.as_str(),
            None => "",
        };
        chart_fragment_url(metric, self.device.as_str(), self.range.code())
    }
}

/// The devices the selector lists: the known ones, plus the selected
/// device when it is a specific one missing from the list (so the current
/// selection stays visible).
pub open spec fn device_options_view(devices: Seq<Seq<char>>, selected: Seq<char>) -> Seq<Seq<char>> {
    if selected != "all"@ && !devices.contains(selected) {
        devices.push(selected)
    } else {
        devices
    }
}

/// Keeps the current selection visible even if the device list is
/// unavailable or the device dropped out of the last 24 h.
pub fn device_options(listed: Vec<String>, selected: &str) -> (r: Vec<String>)
    ensures
        views_of(r@) == device_options_view(views_of(listed@), selected@),
{
    let mut devices = listed;
    if str_eq(selected, ALL_DEVICES) {
        return devices;
    }
    let mut i: usize = 0;
    while i < devices.len()
        invariant
            i <= devices.len(),
            devices@ == listed@,
            selected@ != "all"@,
            forall|k: int| 0 <= k < i ==> devices@[k]@ != selected@,
        decreases devices.len() - i,
    {
        if str_eq(devices[i].as_str(), selected) {
            assert(views_of(devices@)[i as int] == selected@);
            return devices;
        }
        i = i + 1;
    }
    assert(!views_of(devices@).contains(selected@)) by {
        if views_of(devices@).contains(selected@) {
            let k = choose|k: int| 0 <= k < views_of(devices@).len() && views_of(devices@)[k] == selected@;
            assert(devices@[k]@ == selected@);
        }
    }
    let ghost before = devices@;
    devices.push(selected.to_owned());
    assert(views_of(devices@) =~= views_of(before).push(selected@));
    devices
}

/// The device list keeps every listed device in order and, unless `all` is
/// selected, holds the selected device.
pub proof fn lemma_device_options_keep_selection(devices: Seq<Seq<char>>, selected: Seq<char>)
    ensures
        devices.is_prefix_of(device_options_view(devices, selected)),
        selected != "all"@ ==> device_options_view(devices, selected).contains(selected),
{
    let r = device_options_view(devices, selected);
    if selected != "all"@ && !devices.contains(selected) {
        assert(r[devices.len() as int] == selected);
    }
    assert(devices =~= r.take(devices.len() as int));
}

/// The metrics to offer when the metric list cannot be read: the requested
/// one, if any.
pub fn fallback_metrics(query: &ChartQuery) -> (r: Vec<String>)
    ensures
        views_of(r@) == (match opt_view(query.metric) {
            Some(m) => seq![m],
            None => Seq::<Seq<char>>::empty(),
        }),
{
    let mut out: Vec<String> = Vec::new();
    match &query.metric {
        Some(m) => {
            out.push(m.clone());
            assert(views_of(out@) =~= seq![m@]);
        },
        None => {
            assert(views_of(out@) =~= Seq::<Seq<char>>::empty());
        },
    }
    out
}

/// The CSS class of a navigation link: active when it points at the
/// current path.
pub fn nav_class(href: &str, path: &str) -> (r: &'static str)
    ensures
        r@ == (if href@ == path@ { "nav-link active"@ } else { "nav-link"@ }),
{
    if str_eq(href, path) {
        "nav-link active"
    } else {
        "nav-link"
    }
}

/// Response headers and body of an embedded JavaScript asset.
pub type StaticAsset = ([(&'static str, &'static str); 2], &'static [u8]);

/// Serves an embedded script: JavaScript content type, cached for a day.
pub fn js_asset(body: &'static [u8]) -> (r: ([(&'static str, &'static str); 2], &'static [u8]))
    ensures
        r.0[0].0@ == "content-type"@,
        r.0[0].1@ == "application/javascript; charset=utf-8"@,
        r.0[1].0@ == "cache-control"@,
        r.0[1].1@ == "public, max-age=86400"@,
        r.1@ == body@,
{
    (
        [
            ("content-type", "application/javascript; charset=utf-8"),
            ("cache-control", "public, max-age=86400"),
        ],
        body,
    )
}

} // verus!
