//! Monitor configuration: the operator-created `Monitor` record, its
//! normalization on creation, and the `RunConfig` derived from it whenever
//! the monitor runs.

use vstd::prelude::*;
use crate::identity;
use crate::text;

verus! {

/// The catch-up threshold, in minutes: a gap of at least this much since
/// the last run triggers a recovery cycle. Fixed policy value.
pub const CATCH_UP_THRESHOLD_MINUTES: u64 = 5;

/// The maximum number of fingerprints the dedup cache keeps per feed.
/// Fixed policy value.
pub const MAX_CACHE_SIZE: usize = 200;

/// The default refresh interval, in minutes.
pub fn default_refresh_minutes() -> (r: u32)
    ensures
        r == 1,
{
    1
}

/// The mathematical value of a `Monitor`.
pub struct MonitorModel {
    pub id: Seq<char>,
    pub name: Seq<char>,
    pub list_url: Seq<char>,
    pub keywords: Seq<Seq<char>>,
    pub refresh_minutes: u32,
    pub feed: Seq<char>,
}

/// One saved monitor: a feed list URL and the keywords to watch, with the
/// refresh interval and the feed route its matches are stored under.
/// Immutable once created except for deletion; its id is never reused.
pub struct Monitor {
    pub id: String,
    pub name: String,
    pub list_url: String,
    pub keywords: Vec<String>,
    pub refresh_minutes: u32,
    pub feed: String,
}

impl View for Monitor {
    type V = MonitorModel;

    open spec fn view(&self) -> MonitorModel {
        MonitorModel {
            id: self.id@,
            name: self.name@,
            list_url: self.list_url@,
            keywords: self.keywords.deep_view(),
            refresh_minutes: self.refresh_minutes,
            feed: self.feed@,
        }
    }
}

impl DeepView for Monitor {
    type V = MonitorModel;

    open spec fn deep_view(&self) -> MonitorModel {
        self.view()
    }
}

/// Keywords trimmed, empty ones dropped.
pub open spec fn normalize_keywords(ks: Seq<Seq<char>>) -> Seq<Seq<char>>
    decreases ks.len(),
{
    if ks.len() == 0 {
        Seq::empty()
    } else {
        let rest = normalize_keywords(ks.drop_first());
        if text::trim_seq(ks.first()).len() > 0 {
            seq![text::trim_seq(ks.first())] + rest
        } else {
            rest
        }
    }
}

/// The feed route as stored: trimmed and folded to Unicode lower case,
/// `mlb` when absent or empty.
pub open spec fn normalize_feed(feed: Option<Seq<char>>) -> Seq<char> {
    match feed {
        Some(s) => {
            let t = text::lower_of(text::trim_seq(s));
            if t.len() > 0 {
                t
            } else {
                seq!['m', 'l', 'b']
            }
        },
        None => seq!['m', 'l', 'b'],
    }
}

/// Relies on `uuid::Uuid::new_v4` and its `Display` form: a fresh random
/// version-4 identifier, rendered as the 36-character hyphenated form.
/// Nothing is assumed about which identifier comes back.
#[verifier::external_body]
fn fresh_monitor_id() -> (r: String)
    ensures
        r@.len() == 36,
{
    uuid::Uuid::new_v4().to_string()
}

/// A new monitor with a fresh identifier: name and URL trimmed, keywords
/// trimmed with empty ones dropped, the refresh interval defaulted to one
/// minute, and the feed route normalized with `mlb` as the default.
pub fn new_monitor(
    name: &str,
    list_url: &str,
    keywords: Vec<String>,
    refresh_minutes: Option<u32>,
    feed: Option<String>,
) -> (r: Monitor)
    ensures
        r@.id.len() == 36,
        r@.name == text::trim_seq(name@),
        r@.list_url == text::trim_seq(list_url@),
        r@.keywords == normalize_keywords(keywords.deep_view()),
        r@.refresh_minutes == match refresh_minutes {
            Some(m) => m,
            None => 1u32,
        },
        r@.feed == normalize_feed(feed.deep_view()),
{
    let id = fresh_monitor_id();
    let name_s = text::string_of(&text::trim_chars(&text::chars_of(name)));
    let url_s = text::string_of(&text::trim_chars(&text::chars_of(list_url)));
    let mut kept: Vec<String> = Vec::new();
    let ghost ks0 = keywords.deep_view();
    let mut rest = keywords;
    proof {
        assert(kept.deep_view() + normalize_keywords(rest.deep_view()) =~~= normalize_keywords(
            rest.deep_view(),
        ));
    }
    while rest.len() > 0
        invariant
            kept.deep_view() + normalize_keywords(rest.deep_view()) == normalize_keywords(ks0),
        decreases rest@.len(),
    {
        let ghost rest0 = rest.deep_view();
        let k = rest.remove(0);
        proof {
            assert(rest.deep_view() =~~= rest0.drop_first());
            assert(k@ == rest0.first());
        }
        let t = text::trim_chars(&text::chars_of(k.as_str()));
        let ghost kept0 = kept.deep_view();
        if t.len() > 0 {
            kept.push(text::string_of(&t));
            proof {
                assert(kept.deep_view() =~~= kept0.push(text::trim_seq(rest0.first())));
                assert(kept.deep_view() + normalize_keywords(rest.deep_view()) =~~= kept0 + (seq![
                    text::trim_seq(rest0.first()),
                ] + normalize_keywords(rest0.drop_first())));
            }
        }
    }
    proof {
        assert(normalize_keywords(rest.deep_view()) =~~= Seq::<Seq<char>>::empty());
        assert(kept.deep_view() + Seq::<Seq<char>>::empty() =~~= kept.deep_view());
    }
    let minutes = match refresh_minutes {
        Some(m) => m,
        None => default_refresh_minutes(),
    };
    let feed_s = match feed {
        Some(f) => {
            let t = text::lower_chars(&text::trim_chars(&text::chars_of(f.as_str())));
            if t.len() > 0 {
                text::string_of(&t)
            } else {
                mlb_route()
            }
        },
        None => mlb_route(),
    };
    Monitor {
        id,
        name: name_s,
        list_url: url_s,
        keywords: kept,
        refresh_minutes: minutes,
        feed: feed_s,
    }
}

fn mlb_route() -> (r: String)
    ensures
        r@ == seq!['m', 'l', 'b'],
{
    let v = text::chars_of("mlb");
    proof {
        reveal_strlit("mlb");
        assert(v@ =~= seq!['m', 'l', 'b']);
    }
    text::string_of(&v)
}

/// The monitors with the given id removed; every other entry is kept in
/// order.
pub open spec fn without_id(ms: Seq<MonitorModel>, id: Seq<char>) -> Seq<MonitorModel>
    decreases ms.len(),
{
    if ms.len() == 0 {
        Seq::empty()
    } else {
        let rest = without_id(ms.drop_first(), id);
        if ms.first().id == id {
            rest
        } else {
            seq![ms.first()] + rest
        }
    }
}

/// Deletes a monitor from the list by id, keeping the others in order.
pub fn remove_monitor(monitors: Vec<Monitor>, id: &str) -> (r: Vec<Monitor>)
    ensures
        r.deep_view() == without_id(monitors.deep_view(), id@),
{
    let id_chars = text::chars_of(id);
    let mut kept: Vec<Monitor> = Vec::new();
    let ghost ms0 = monitors.deep_view();
    let mut rest = monitors;
    proof {
        assert(kept.deep_view() + without_id(rest.deep_view(), id@) =~~= without_id(
            rest.deep_view(),
            id@,
        ));
    }
    while rest.len() > 0
        invariant
            id_chars@ == id@,
            kept.deep_view() + without_id(rest.deep_view(), id@) == without_id(ms0, id@),
        decreases rest@.len(),
    {
        let ghost rest0 = rest.deep_view();
        let m = rest.remove(0);
        proof {
            assert(rest.deep_view() =~~= rest0.drop_first());
            assert(m@ == rest0.first());
        }
        let m_id = text::chars_of(m.id.as_str());
        let ghost kept0 = kept.deep_view();
        if !text::eq_chars(&m_id, &id_chars) {
            kept.push(m);
            proof {
                assert(kept.deep_view() =~~= kept0.push(rest0.first()));
                assert(kept.deep_view() + without_id(rest.deep_view(), id@) =~~= kept0 + (seq![
                    rest0.first(),
                ] + without_id(rest0.drop_first(), id@)));
            }
        }
    }
    proof {
        assert(without_id(rest.deep_view(), id@) =~~= Seq::<MonitorModel>::empty());
        assert(kept.deep_view() + Seq::<MonitorModel>::empty() =~~= kept.deep_view());
    }
    kept
}

/// The mathematical value of a `RunConfig`.
pub struct RunConfigModel {
    pub feed_id: Seq<char>,
    pub keywords: Seq<Seq<char>>,
    pub catch_up_threshold_minutes: u64,
    pub max_cache_size: usize,
}

/// The configuration one run of the engine works from, derived
/// deterministically from a monitor and never mutated independently.
pub struct RunConfig {
    pub feed_id: String,
    pub keywords: Vec<String>,
    pub catch_up_threshold_minutes: u64,
    pub max_cache_size: usize,
}

impl View for RunConfig {
    type V = RunConfigModel;

    open spec fn view(&self) -> RunConfigModel {
        RunConfigModel {
            feed_id: self.feed_id@,
            keywords: self.keywords.deep_view(),
            catch_up_threshold_minutes: self.catch_up_threshold_minutes,
            max_cache_size: self.max_cache_size,
        }
    }
}

/// The feed identifier a run is namespaced by: the list id resolved from
/// the monitor's URL, or the sentinel `default` where no shape matches.
pub open spec fn feed_id_of(list_url: Seq<char>) -> Seq<char> {
    match identity::list_id_of(list_url) {
        Some(id) => id,
        None => seq!['d', 'e', 'f', 'a', 'u', 'l', 't'],
    }
}

/// Copies a list of strings.
pub fn clone_strings(v: &Vec<String>) -> (r: Vec<String>)
    ensures
        r.deep_view() == v.deep_view(),
{
    let mut r: Vec<String> = Vec::new();
    let mut i: usize = 0;
    while i < v.len()
        invariant
            i <= v@.len(),
            r@.len() == i,
            forall|j: int| 0 <= j < i ==> r@[j]@ == v@[j]@,
        decreases v@.len() - i,
    {
        r.push(v[i].clone());
        i = i + 1;
    }
    proof {
        assert(r.deep_view() =~~= v.deep_view());
    }
    r
}

/// Derives the run configuration of a monitor: the resolved feed id (with
/// its sentinel fallback), the keyword list, and the fixed policy values.
pub fn run_config_from_monitor(m: &Monitor) -> (r: RunConfig)
    ensures
        r@.feed_id == feed_id_of(m@.list_url),
        r@.keywords == m@.keywords,
        r@.catch_up_threshold_minutes == CATCH_UP_THRESHOLD_MINUTES,
        r@.max_cache_size == MAX_CACHE_SIZE,
{
    let feed_id = match identity::parse_list_id_from_url(m.list_url.as_str()) {
        Some(id) => id,
        None => {
            let v = text::chars_of("default");
            proof {
                reveal_strlit("default");
                assert(v@ =~= seq!['d', 'e', 'f', 'a', 'u', 'l', 't']);
            }
            text::string_of(&v)
        },
    };
    RunConfig {
        feed_id,
        keywords: clone_strings(&m.keywords),
        catch_up_threshold_minutes: CATCH_UP_THRESHOLD_MINUTES,
        max_cache_size: MAX_CACHE_SIZE,
    }
}

} // verus!
