//! The monitor engine: item records, fingerprints, the accept/reject
//! decision, and the scan and catch-up cycles over the currently visible
//! items of a feed. The cycles are pure with respect to the outside world:
//! they take the visible items and the clock as arguments and return the
//! records to forward; the caller performs the sending.

use vstd::prelude::*;
use crate::config::RunConfig;
use crate::dedup;
use crate::dedup::DedupCache;
use crate::matcher;
use crate::state::RunState;
use crate::text;

verus! {

/// Fingerprints keep at most this many leading characters of an item's
/// text. Fixed policy value; two items sharing this prefix are one.
pub const FINGERPRINT_LEN: usize = 120;

/// The mathematical value of an `Item`.
pub struct ItemModel {
    pub id: Option<Seq<char>>,
    pub author: Seq<char>,
    pub text: Seq<char>,
    pub url: Option<Seq<char>>,
    pub posted_at: Option<Seq<char>>,
}

/// One visible feed item, as the enumeration capability hands it over:
/// id and times may be missing, the author is `unknown` where it could not
/// be resolved.
pub struct Item {
    pub id: Option<String>,
    pub author: String,
    pub text: String,
    pub url: Option<String>,
    pub posted_at: Option<String>,
}

impl View for Item {
    type V = ItemModel;

    open spec fn view(&self) -> ItemModel {
        ItemModel {
            id: self.id.deep_view(),
            author: self.author@,
            text: self.text@,
            url: self.url.deep_view(),
            posted_at: self.posted_at.deep_view(),
        }
    }
}

impl DeepView for Item {
    type V = ItemModel;

    open spec fn deep_view(&self) -> ItemModel {
        self.view()
    }
}

/// The mathematical value of an `Outbound`.
pub struct OutboundModel {
    pub tweet_id: Seq<char>,
    pub author_handle: Seq<char>,
    pub text: Seq<char>,
    pub url: Option<Seq<char>>,
    pub posted_at: Option<Seq<char>>,
}

/// One record to forward to the ingestion endpoint. Where the item had no
/// id, the current time in milliseconds stands in as a synthetic one.
pub struct Outbound {
    pub tweet_id: String,
    pub author_handle: String,
    pub text: String,
    pub url: Option<String>,
    pub posted_at: Option<String>,
}

impl View for Outbound {
    type V = OutboundModel;

    open spec fn view(&self) -> OutboundModel {
        OutboundModel {
            tweet_id: self.tweet_id@,
            author_handle: self.author_handle@,
            text: self.text@,
            url: self.url.deep_view(),
            posted_at: self.posted_at.deep_view(),
        }
    }
}

impl DeepView for Outbound {
    type V = OutboundModel;

    open spec fn deep_view(&self) -> OutboundModel {
        self.view()
    }
}

/// The dedup fingerprint of an item text: its first 120 characters, or the
/// whole text if shorter.
pub open spec fn fingerprint_of(text: Seq<char>) -> Seq<char> {
    if text.len() <= FINGERPRINT_LEN {
        text
    } else {
        text.take(FINGERPRINT_LEN as int)
    }
}

/// Computes the dedup fingerprint of an item text.
pub fn fingerprint(txt: &str) -> (r: String)
    ensures
        r@ == fingerprint_of(txt@),
{
    let chars = text::chars_of(txt);
    let prefix = text::take_chars(&chars, FINGERPRINT_LEN);
    text::string_of(&prefix)
}

/// Copies an optional string.
pub fn clone_opt_string(o: &Option<String>) -> (r: Option<String>)
    ensures
        r.deep_view() == o.deep_view(),
{
    match o {
        Some(s) => Some(s.clone()),
        None => None,
    }
}

/// The sort key of an item in catch-up order: its posted time, or the
/// empty string where the time is missing, so that timeless items sort
/// last in descending order.
pub open spec fn time_key(it: ItemModel) -> Seq<char> {
    match it.posted_at {
        Some(t) => t,
        None => Seq::empty(),
    }
}

/// Stable insertion into a sequence sorted by descending time key: the new
/// item goes after every item whose key is at least as large, so equal
/// keys keep their encounter order.
pub open spec fn insert_by_time(x: ItemModel, s: Seq<ItemModel>) -> Seq<ItemModel>
    decreases s.len(),
{
    if s.len() == 0 {
        seq![x]
    } else if text::lex_le(time_key(x), time_key(s.first())) {
        seq![s.first()] + insert_by_time(x, s.drop_first())
    } else {
        seq![x] + s
    }
}

/// The items sorted by posted time, newest first; items missing a time
/// sort last, and ties keep the original encounter order.
pub open spec fn sort_by_time_desc(items: Seq<ItemModel>) -> Seq<ItemModel>
    decreases items.len(),
{
    if items.len() == 0 {
        Seq::empty()
    } else {
        insert_by_time(items.last(), sort_by_time_desc(items.drop_last()))
    }
}

fn item_time_key(it: &Item) -> (r: Vec<char>)
    ensures
        r@ == time_key(it@),
{
    match &it.posted_at {
        Some(t) => text::chars_of(t.as_str()),
        None => Vec::new(),
    }
}

fn find_insert_pos(out: &Vec<Item>, kx: &Vec<char>) -> (r: usize)
    ensures
        r <= out@.len(),
        forall|m: int| 0 <= m < r ==> text::lex_le(kx@, time_key(#[trigger] out.deep_view()[m])),
        r == out@.len() || !text::lex_le(kx@, time_key(out.deep_view()[r as int])),
{
    let mut j: usize = 0;
    while j < out.len()
        invariant
            j <= out@.len(),
            out.deep_view().len() == out@.len(),
            forall|m: int| 0 <= m < out@.len() ==> out.deep_view()[m] == out@[m]@,
            forall|m: int|
                0 <= m < j ==> text::lex_le(kx@, time_key(#[trigger] out.deep_view()[m])),
        decreases out@.len() - j,
    {
        let ky = item_time_key(&out[j]);
        if !text::lex_le_chars(kx, &ky) {
            return j;
        }
        j = j + 1;
    }
    j
}

proof fn lemma_insert_by_time_at(x: ItemModel, s: Seq<ItemModel>, j: int)
    requires
        0 <= j <= s.len(),
        forall|m: int| 0 <= m < j ==> text::lex_le(time_key(x), time_key(#[trigger] s[m])),
        j == s.len() || !text::lex_le(time_key(x), time_key(s[j])),
    ensures
        insert_by_time(x, s) == s.take(j) + seq![x] + s.skip(j),
    decreases j,
{
    if j == 0 {
        assert(insert_by_time(x, s) =~= s.take(0) + seq![x] + s.skip(0));
    } else {
        assert(text::lex_le(time_key(x), time_key(s[0])));
        lemma_insert_by_time_at(x, s.drop_first(), j - 1);
        assert(s.drop_first().take(j - 1) =~= s.take(j).drop_first());
        assert(s.drop_first().skip(j - 1) =~= s.skip(j));
        assert(insert_by_time(x, s) =~= s.take(j) + seq![x] + s.skip(j));
    }
}

/// Sorts the visible items by posted time, newest first, timeless items
/// last, stable within ties.
pub fn sort_items_by_time_desc(items: Vec<Item>) -> (r: Vec<Item>)
    ensures
        r.deep_view() == sort_by_time_desc(items.deep_view()),
{
    let ghost items0 = items.deep_view();
    let n0 = items.len();
    let mut out: Vec<Item> = Vec::new();
    let mut rest = items;
    let mut i: usize = 0;
    proof {
        assert(items0.take(0) =~~= Seq::<ItemModel>::empty());
        assert(out.deep_view() =~~= sort_by_time_desc(items0.take(0)));
    }
    while rest.len() > 0
        invariant
            n0 == items0.len(),
            i + rest@.len() == n0,
            rest.deep_view() =~~= items0.skip(i as int),
            out.deep_view() == sort_by_time_desc(items0.take(i as int)),
        decreases rest@.len(),
    {
        let ghost rest_before = rest@;
        let ghost rest0 = rest.deep_view();
        let x = rest.remove(0);
        proof {
            assert(rest.deep_view() =~~= rest0.drop_first());
            assert(rest.deep_view() =~~= items0.skip(i + 1));
            assert(x.deep_view() == rest_before[0].deep_view());
            assert(rest0[0] == rest_before[0].deep_view());
            assert(rest0[0] == items0.skip(i as int)[0]);
            assert(x.deep_view() == items0[i as int]);
        }
        let kx = item_time_key(&x);
        let j = find_insert_pos(&out, &kx);
        let ghost out0 = out.deep_view();
        let ghost jj = j as int;
        proof {
            lemma_insert_by_time_at(x.deep_view(), out0, jj);
        }
        out.insert(j, x);
        proof {
            assert(out.deep_view() =~~= out0.take(jj) + seq![items0[i as int]] + out0.skip(jj));
            assert(items0.take(i + 1).drop_last() =~~= items0.take(i as int));
            assert(items0.take(i + 1).last() == items0[i as int]);
            assert(out.deep_view() == sort_by_time_desc(items0.take(i + 1)));
        }
        i = i + 1;
    }
    proof {
        assert(items0.take(items0.len() as int) =~~= items0);
    }
    out
}

/// Whether the gap since the last run is at least the catch-up threshold:
/// the entry condition of a recovery cycle. Clocks that moved backwards
/// count as no gap.
pub open spec fn catch_up_due(now: u64, last_run_time: u64, threshold_minutes: u64) -> bool {
    now >= last_run_time && ((now - last_run_time) as nat) / 60000 >= threshold_minutes
}

/// The whole minutes elapsed since the last run, zero if the clock moved
/// backwards.
pub fn gap_minutes(now: u64, last_run_time: u64) -> (r: u64)
    ensures
        r == if now >= last_run_time {
            ((now - last_run_time) as nat) / 60000
        } else {
            0
        },
{
    if now >= last_run_time {
        (now - last_run_time) / 60000
    } else {
        0
    }
}

/// The two kinds of cycle a trigger can dispatch to.
#[derive(Clone, Copy, Debug, PartialEq, Eq, Structural)]
pub enum CycleKind {
    Scanning,
    CatchingUp,
}

/// The entry decision of every cycle: catch up when the gap since the last
/// run reaches the threshold, scan otherwise.
pub fn decide_cycle(now: u64, last_run_time: u64, threshold_minutes: u64) -> (r: CycleKind)
    ensures
        r == CycleKind::CatchingUp <==> catch_up_due(now, last_run_time, threshold_minutes),
{
    if now >= last_run_time && (now - last_run_time) / 60000 >= threshold_minutes {
        CycleKind::CatchingUp
    } else {
        CycleKind::Scanning
    }
}

/// Whether an item is accepted: its fingerprint is not yet cached, and,
/// where keyword filtering is enabled, some keyword matches its text.
pub open spec fn accepts(
    cache: Seq<Seq<char>>,
    kws: Seq<Seq<char>>,
    filter: bool,
    it: ItemModel,
) -> bool {
    &&& !dedup::contains_fp(cache, fingerprint_of(it.text))
    &&& (!filter || matcher::matches_any(it.text, kws))
}

/// The record forwarded for an accepted item: the item's fields, with the
/// current time in decimal standing in for a missing id.
pub open spec fn outbound_of(it: ItemModel, now: u64) -> OutboundModel {
    OutboundModel {
        tweet_id: match it.id {
            Some(id) => id,
            None => text::dec_seq(now as nat),
        },
        author_handle: it.author,
        text: it.text,
        url: it.url,
        posted_at: it.posted_at,
    }
}

/// Builds the outbound record of an accepted item.
pub fn make_outbound(it: &Item, now: u64) -> (r: Outbound)
    ensures
        r@ == outbound_of(it@, now),
{
    let tweet_id = match &it.id {
        Some(id) => id.clone(),
        None => text::string_of(&text::dec_chars(now)),
    };
    Outbound {
        tweet_id,
        author_handle: it.author.clone(),
        text: it.text.clone(),
        url: clone_opt_string(&it.url),
        posted_at: clone_opt_string(&it.posted_at),
    }
}

/// What one cycle leaves behind: the cache contents, the last-item cursor,
/// and the records to forward, in acceptance order.
pub struct StepModel {
    pub cache: Seq<Seq<char>>,
    pub last_item_id: Option<Seq<char>>,
    pub last_item_time: Option<Seq<char>>,
    pub outbound: Seq<OutboundModel>,
}

/// The accept/reject walk over a sequence of items: each accepted item is
/// forwarded, its fingerprint inserted, and the last-item cursor moved to
/// its id and time; rejected items change nothing.
pub open spec fn run_items(
    items: Seq<ItemModel>,
    kws: Seq<Seq<char>>,
    filter: bool,
    cache: Seq<Seq<char>>,
    cap: nat,
    last_id: Option<Seq<char>>,
    last_time: Option<Seq<char>>,
    now: u64,
) -> StepModel
    decreases items.len(),
{
    if items.len() == 0 {
        StepModel { cache, last_item_id: last_id, last_item_time: last_time, outbound: Seq::empty() }
    } else {
        let it = items.first();
        if accepts(cache, kws, filter, it) {
            let c2 = dedup::insert_fp(cache, fingerprint_of(it.text), cap);
            let rest = run_items(items.drop_first(), kws, filter, c2, cap, it.id, it.posted_at, now);
            StepModel {
                cache: rest.cache,
                last_item_id: rest.last_item_id,
                last_item_time: rest.last_item_time,
                outbound: seq![outbound_of(it, now)] + rest.outbound,
            }
        } else {
            run_items(items.drop_first(), kws, filter, cache, cap, last_id, last_time, now)
        }
    }
}

spec fn prefix_step_invariant(goal: StepModel, out: Seq<OutboundModel>, rest: StepModel) -> bool {
    &&& goal.cache == rest.cache
    &&& goal.last_item_id == rest.last_item_id
    &&& goal.last_item_time == rest.last_item_time
    &&& goal.outbound == out + rest.outbound
}

fn run_prefix(
    items: &Vec<Item>,
    n: usize,
    keywords: &Vec<String>,
    filter: bool,
    cache: &mut DedupCache,
    last_id: &mut Option<String>,
    last_time: &mut Option<String>,
    now: u64,
) -> (out: Vec<Outbound>)
    requires
        old(cache).wf(),
        n <= items.len(),
    ensures
        final(cache).wf(),
        final(cache).cap() == old(cache).cap(),
        (StepModel {
            cache: final(cache)@,
            last_item_id: final(last_id).deep_view(),
            last_item_time: final(last_time).deep_view(),
            outbound: out.deep_view(),
        }) == run_items(
            items.deep_view().take(n as int),
            keywords.deep_view(),
            filter,
            old(cache)@,
            old(cache).cap(),
            old(last_id).deep_view(),
            old(last_time).deep_view(),
            now,
        ),
{
    let ghost items0 = items.deep_view();
    let ghost kws0 = keywords.deep_view();
    let ghost cap0 = old(cache).cap();
    let ghost goal = run_items(
        items0.take(n as int),
        kws0,
        filter,
        old(cache)@,
        cap0,
        old(last_id).deep_view(),
        old(last_time).deep_view(),
        now,
    );
    let mut out: Vec<Outbound> = Vec::new();
    let mut i: usize = 0;
    proof {
        assert(items0.take(n as int).subrange(0, n as int) =~~= items0.take(n as int));
        assert(items0.subrange(0, n as int) =~~= items0.take(n as int));
        assert(out.deep_view() =~~= Seq::<OutboundModel>::empty());
        let rest = run_items(
            items0.subrange(0, n as int),
            kws0,
            filter,
            cache@,
            cap0,
            last_id.deep_view(),
            last_time.deep_view(),
            now,
        );
        assert(out.deep_view() + rest.outbound =~~= rest.outbound);
    }
    while i < n
        invariant
            i <= n,
            n <= items@.len(),
            items0 == items.deep_view(),
            kws0 == keywords.deep_view(),
            cache.wf(),
            cache.cap() == cap0,
            prefix_step_invariant(
                goal,
                out.deep_view(),
                run_items(
                    items0.subrange(i as int, n as int),
                    kws0,
                    filter,
                    cache@,
                    cap0,
                    last_id.deep_view(),
                    last_time.deep_view(),
                    now,
                ),
            ),
        decreases n - i,
    {
        let ghost cur = items0.subrange(i as int, n as int);
        let ghost rest_before = run_items(
            cur,
            kws0,
            filter,
            cache@,
            cap0,
            last_id.deep_view(),
            last_time.deep_view(),
            now,
        );
        proof {
            assert(items@[i as int]@ == items0[i as int]);
            assert(cur.first() == items0[i as int]);
            assert(cur.drop_first() =~~= items0.subrange(i + 1, n as int));
        }
        let it = &items[i];
        let fp = fingerprint(it.text.as_str());
        let hit = cache.contains(&fp);
        let matched = !filter || matcher::keyword_match(it.text.as_str(), keywords);
        if !hit && matched {
            proof {
                assert(accepts(cache@, kws0, filter, items0[i as int]));
            }
            let ob = make_outbound(it, now);
            let ghost out0 = out.deep_view();
            let ghost obv = ob@;
            out.push(ob);
            cache.insert(fp);
            *last_id = clone_opt_string(&it.id);
            *last_time = clone_opt_string(&it.posted_at);
            proof {
                assert(out.deep_view() =~~= out0.push(obv));
                assert(out0.push(obv) =~~= out0 + seq![obv]);
                let rest_after = run_items(
                    items0.subrange(i + 1, n as int),
                    kws0,
                    filter,
                    cache@,
                    cap0,
                    last_id.deep_view(),
                    last_time.deep_view(),
                    now,
                );
                assert(rest_before.outbound == seq![obv] + rest_after.outbound);
                assert((out0 + seq![obv]) + rest_after.outbound =~~= out0 + (seq![obv]
                    + rest_after.outbound));
            }
        } else {
            proof {
                assert(!accepts(cache@, kws0, filter, items0[i as int]));
            }
        }
        i = i + 1;
    }
    proof {
        let rest = run_items(
            items0.subrange(n as int, n as int),
            kws0,
            filter,
            cache@,
            cap0,
            last_id.deep_view(),
            last_time.deep_view(),
            now,
        );
        assert(items0.subrange(n as int, n as int) =~~= Seq::<ItemModel>::empty());
        assert(rest.outbound =~~= Seq::<OutboundModel>::empty());
        assert(out.deep_view() + rest.outbound =~~= out.deep_view());
    }
    out
}

/// One scanning cycle: walks the visible items in encounter order, applies
/// the accept/reject logic, and unconditionally moves the last-run time to
/// `now`, whether or not anything matched.
pub fn scan_cycle(
    config: &RunConfig,
    filter: bool,
    items: &Vec<Item>,
    cache: &mut DedupCache,
    run_state: &mut RunState,
    now: u64,
) -> (out: Vec<Outbound>)
    requires
        old(cache).wf(),
    ensures
        final(cache).wf(),
        final(cache).cap() == old(cache).cap(),
        final(run_state)@.last_run_time == now,
        (StepModel {
            cache: final(cache)@,
            last_item_id: final(run_state)@.last_item_id,
            last_item_time: final(run_state)@.last_item_time,
            outbound: out.deep_view(),
        }) == run_items(
            items.deep_view(),
            config@.keywords,
            filter,
            old(cache)@,
            old(cache).cap(),
            old(run_state)@.last_item_id,
            old(run_state)@.last_item_time,
            now,
        ),
{
    let n = items.len();
    let mut lid = clone_opt_string(&run_state.last_item_id);
    let mut lt = clone_opt_string(&run_state.last_item_time);
    let out = run_prefix(items, n, &config.keywords, filter, cache, &mut lid, &mut lt, now);
    run_state.last_run_time = now;
    run_state.last_item_id = lid;
    run_state.last_item_time = lt;
    proof {
        assert(items.deep_view().take(n as int) =~~= items.deep_view());
    }
    out
}

/// Whether the catch-up walk stops at this item: its id equals the last
/// confirmed item id, or its posted time is at or before the last
/// confirmed item time.
pub open spec fn stops(
    last_id: Option<Seq<char>>,
    last_time: Option<Seq<char>>,
    it: ItemModel,
) -> bool {
    ||| match last_id {
        Some(lid) => it.id == Some(lid),
        None => false,
    }
    ||| match (last_time, it.posted_at) {
        (Some(lt), Some(t)) => text::lex_le(t, lt),
        _ => false,
    }
}

/// How many of the sorted items the catch-up walk visits: the longest
/// prefix in which no item triggers the stop condition.
pub open spec fn stop_prefix_len(
    items: Seq<ItemModel>,
    last_id: Option<Seq<char>>,
    last_time: Option<Seq<char>>,
) -> nat
    decreases items.len(),
{
    if items.len() == 0 {
        0
    } else if stops(last_id, last_time, items.first()) {
        0
    } else {
        1 + stop_prefix_len(items.drop_first(), last_id, last_time)
    }
}

fn stops_exec(last_id: &Option<String>, last_time: &Option<String>, it: &Item) -> (r: bool)
    ensures
        r == stops(last_id.deep_view(), last_time.deep_view(), it@),
{
    let id_hit = match (last_id, &it.id) {
        (Some(a), Some(b)) => *a == *b,
        _ => false,
    };
    if id_hit {
        return true;
    }
    match (last_time, &it.posted_at) {
        (Some(lt), Some(t)) => {
            let tc = text::chars_of(t.as_str());
            let lc = text::chars_of(lt.as_str());
            text::lex_le_chars(&tc, &lc)
        },
        _ => false,
    }
}

proof fn lemma_stop_prefix_at(
    items: Seq<ItemModel>,
    last_id: Option<Seq<char>>,
    last_time: Option<Seq<char>>,
    k: int,
)
    requires
        0 <= k <= items.len(),
        forall|j: int| 0 <= j < k ==> !stops(last_id, last_time, #[trigger] items[j]),
        k == items.len() || stops(last_id, last_time, items[k]),
    ensures
        stop_prefix_len(items, last_id, last_time) == k,
    decreases k,
{
    if k > 0 {
        assert(!stops(last_id, last_time, items[0]));
        lemma_stop_prefix_at(items.drop_first(), last_id, last_time, k - 1);
    }
}

fn stop_prefix_exec(
    items: &Vec<Item>,
    last_id: &Option<String>,
    last_time: &Option<String>,
) -> (r: usize)
    ensures
        r <= items@.len(),
        r == stop_prefix_len(items.deep_view(), last_id.deep_view(), last_time.deep_view()),
{
    let mut k: usize = 0;
    while k < items.len()
        invariant
            k <= items@.len(),
            items.deep_view().len() == items@.len(),
            forall|j: int| 0 <= j < items@.len() ==> items.deep_view()[j] == items@[j]@,
            forall|j: int|
                0 <= j < k ==> !stops(
                    last_id.deep_view(),
                    last_time.deep_view(),
                    #[trigger] items.deep_view()[j],
                ),
        decreases items@.len() - k,
    {
        if stops_exec(last_id, last_time, &items[k]) {
            proof {
                lemma_stop_prefix_at(
                    items.deep_view(),
                    last_id.deep_view(),
                    last_time.deep_view(),
                    k as int,
                );
            }
            return k;
        }
        k = k + 1;
    }
    proof {
        lemma_stop_prefix_at(
            items.deep_view(),
            last_id.deep_view(),
            last_time.deep_view(),
            k as int,
        );
    }
    k
}

/// The items a catch-up cycle visits: the visible items sorted newest
/// first, cut off at the first item that reaches the last confirmed point.
pub open spec fn catch_up_selection(
    items: Seq<ItemModel>,
    last_id: Option<Seq<char>>,
    last_time: Option<Seq<char>>,
) -> Seq<ItemModel> {
    let sorted = sort_by_time_desc(items);
    sorted.take(stop_prefix_len(sorted, last_id, last_time) as int)
}

/// One catch-up cycle: sorts the visible items newest first, walks them
/// until the stop condition (the last confirmed id or time) is reached,
/// applies the accept/reject logic to the items before the stop, and moves
/// the last-run time to `now`. The stop condition is evaluated against the
/// state as it was when the cycle began.
pub fn catch_up_cycle(
    config: &RunConfig,
    filter: bool,
    items: Vec<Item>,
    cache: &mut DedupCache,
    run_state: &mut RunState,
    now: u64,
) -> (out: Vec<Outbound>)
    requires
        old(cache).wf(),
    ensures
        final(cache).wf(),
        final(cache).cap() == old(cache).cap(),
        final(run_state)@.last_run_time == now,
        (StepModel {
            cache: final(cache)@,
            last_item_id: final(run_state)@.last_item_id,
            last_item_time: final(run_state)@.last_item_time,
            outbound: out.deep_view(),
        }) == run_items(
            catch_up_selection(
                items.deep_view(),
                old(run_state)@.last_item_id,
                old(run_state)@.last_item_time,
            ),
            config@.keywords,
            filter,
            old(cache)@,
            old(cache).cap(),
            old(run_state)@.last_item_id,
            old(run_state)@.last_item_time,
            now,
        ),
{
    let ghost items0 = items.deep_view();
    let sorted = sort_items_by_time_desc(items);
    let k = stop_prefix_exec(&sorted, &run_state.last_item_id, &run_state.last_item_time);
    let mut lid = clone_opt_string(&run_state.last_item_id);
    let mut lt = clone_opt_string(&run_state.last_item_time);
    let out = run_prefix(&sorted, k, &config.keywords, filter, cache, &mut lid, &mut lt, now);
    run_state.last_run_time = now;
    run_state.last_item_id = lid;
    run_state.last_item_time = lt;
    proof {
        assert(sorted.deep_view().take(k as int) =~~= catch_up_selection(
            items0,
            old(run_state)@.last_item_id,
            old(run_state)@.last_item_time,
        ));
    }
    out
}


/// Whether a sequence of items is ordered newest first by time key.
pub open spec fn sorted_by_time_desc(s: Seq<ItemModel>) -> bool {
    forall|i: int, j: int|
        0 <= i < j < s.len() ==> text::lex_le(time_key(#[trigger] s[j]), time_key(#[trigger] s[i]))
}

proof fn lemma_insert_by_time_membership(x: ItemModel, s: Seq<ItemModel>)
    ensures
        insert_by_time(x, s).to_multiset() == s.push(x).to_multiset(),
        forall|m: int|
            0 <= m < insert_by_time(x, s).len() ==> (#[trigger] insert_by_time(x, s)[m] == x
                || exists|w: int| 0 <= w < s.len() && s[w] == insert_by_time(x, s)[m]),
    decreases s.len(),
{
    broadcast use vstd::multiset::group_multiset_axioms;

    let r = insert_by_time(x, s);
    if s.len() == 0 {
        assert(r =~= s.push(x));
        assert(forall|m: int| 0 <= m < r.len() ==> r[m] == x);
    } else if text::lex_le(time_key(x), time_key(s.first())) {
        lemma_insert_by_time_membership(x, s.drop_first());
        let r2 = insert_by_time(x, s.drop_first());
        assert(r == seq![s.first()] + r2);
        assert forall|m: int| 0 <= m < r.len() implies (#[trigger] r[m] == x || exists|w: int|
            0 <= w < s.len() && s[w] == r[m]) by {
            if m == 0 {
                assert(s[0] == r[0]);
            } else {
                assert(r[m] == r2[m - 1]);
                if r2[m - 1] != x {
                    let w = choose|w: int|
                        0 <= w < s.drop_first().len() && s.drop_first()[w] == r2[m - 1];
                    assert(s[w + 1] == r[m]);
                }
            }
        }
        let spx = s.push(x);
        r.to_multiset_ensures();
        spx.to_multiset_ensures();
        assert(r.remove(0) =~= r2);
        assert(r.remove(0).to_multiset() =~= r.to_multiset().remove(r[0]));
        assert(spx.remove(0) =~= s.drop_first().push(x));
        assert(spx.remove(0).to_multiset() =~= spx.to_multiset().remove(spx[0]));
        assert(r.to_multiset().remove(s.first()) == spx.to_multiset().remove(s.first()));
        assert(r.contains(s.first()) && spx.contains(s.first()));
        assert(r.to_multiset().count(s.first()) > 0);
        assert(spx.to_multiset().count(s.first()) > 0);
        assert(r.to_multiset() =~= r.to_multiset().remove(s.first()).insert(s.first()));
        assert(spx.to_multiset() =~= spx.to_multiset().remove(s.first()).insert(s.first()));
    } else {
        assert(r == seq![x] + s);
        assert forall|m: int| 0 <= m < r.len() implies (#[trigger] r[m] == x || exists|w: int|
            0 <= w < s.len() && s[w] == r[m]) by {
            if m > 0 {
                assert(s[m - 1] == r[m]);
            }
        }
        r.to_multiset_ensures();
        s.to_multiset_ensures();
        assert(r.remove(0) =~= s);
        assert(r.remove(0).to_multiset() =~= r.to_multiset().remove(r[0]));
        assert(s.push(x).to_multiset() =~= s.to_multiset().insert(x));
        assert(r.contains(x));
        assert(r.to_multiset().count(x) > 0);
        assert(r.to_multiset() =~= r.to_multiset().remove(x).insert(x));
    }
}

proof fn lemma_insert_by_time_sorted(x: ItemModel, s: Seq<ItemModel>)
    requires
        sorted_by_time_desc(s),
    ensures
        sorted_by_time_desc(insert_by_time(x, s)),
    decreases s.len(),
{
    let r = insert_by_time(x, s);
    if s.len() == 0 {
    } else if text::lex_le(time_key(x), time_key(s.first())) {
        assert(sorted_by_time_desc(s.drop_first()));
        lemma_insert_by_time_sorted(x, s.drop_first());
        lemma_insert_by_time_membership(x, s.drop_first());
        let r2 = insert_by_time(x, s.drop_first());
        assert(r == seq![s.first()] + r2);
        assert forall|i: int, j: int|
            0 <= i < j < r.len() implies text::lex_le(
            time_key(#[trigger] r[j]),
            time_key(#[trigger] r[i]),
        ) by {
            if i == 0 {
                assert(r[j] == r2[j - 1]);
                if r2[j - 1] == x {
                    assert(text::lex_le(time_key(x), time_key(s[0])));
                } else {
                    let w = choose|w: int|
                        0 <= w < s.drop_first().len() && s.drop_first()[w] == r2[j - 1];
                    assert(s[w + 1] == r2[j - 1]);
                    assert(text::lex_le(time_key(s[w + 1]), time_key(s[0])));
                }
            } else {
                assert(r[i] == r2[i - 1] && r[j] == r2[j - 1]);
            }
        }
    } else {
        text::lemma_lex_le_total(time_key(x), time_key(s.first()));
        assert(text::lex_le(time_key(s.first()), time_key(x)));
        assert(r == seq![x] + s);
        assert forall|i: int, j: int|
            0 <= i < j < r.len() implies text::lex_le(
            time_key(#[trigger] r[j]),
            time_key(#[trigger] r[i]),
        ) by {
            if i == 0 {
                assert(r[j] == s[j - 1]);
                if j - 1 > 0 {
                    assert(text::lex_le(time_key(s[j - 1]), time_key(s[0])));
                    text::lemma_lex_le_trans(
                        time_key(s[j - 1]),
                        time_key(s[0]),
                        time_key(x),
                    );
                }
            } else {
                assert(r[i] == s[i - 1] && r[j] == s[j - 1]);
            }
        }
    }
}

/// The catch-up ordering is correct: sorting yields the same items (as a
/// multiset), ordered newest first by posted time.
pub proof fn lemma_sort_by_time_desc_correct(items: Seq<ItemModel>)
    ensures
        sorted_by_time_desc(sort_by_time_desc(items)),
        sort_by_time_desc(items).to_multiset() == items.to_multiset(),
    decreases items.len(),
{
    if items.len() == 0 {
        items.to_multiset_ensures();
        sort_by_time_desc(items).to_multiset_ensures();
        assert(sort_by_time_desc(items) =~= items);
    } else {
        lemma_sort_by_time_desc_correct(items.drop_last());
        let sorted_prefix = sort_by_time_desc(items.drop_last());
        lemma_insert_by_time_sorted(items.last(), sorted_prefix);
        lemma_insert_by_time_membership(items.last(), sorted_prefix);
        sorted_prefix.to_multiset_ensures();
        items.drop_last().to_multiset_ensures();
        assert(items.drop_last().push(items.last()) =~= items);
    }
}

/// Forwarding is effectively exactly-once: as long as one cycle's items fit
/// in the cache's spare capacity, so that nothing is evicted mid-cycle, the
/// forwarded records carry pairwise-distinct fingerprints, none of them was
/// cached before the cycle, and every one of them is cached after it.
pub proof fn lemma_forward_exactly_once(
    items: Seq<ItemModel>,
    kws: Seq<Seq<char>>,
    filter: bool,
    cache: Seq<Seq<char>>,
    cap: nat,
    last_id: Option<Seq<char>>,
    last_time: Option<Seq<char>>,
    now: u64,
)
    requires
        cache.len() + items.len() <= cap,
    ensures
        ({
            let m = run_items(items, kws, filter, cache, cap, last_id, last_time, now);
            &&& forall|a: int, b: int|
                0 <= a < b < m.outbound.len() ==> fingerprint_of(#[trigger] m.outbound[a].text)
                    != fingerprint_of(#[trigger] m.outbound[b].text)
            &&& forall|a: int|
                0 <= a < m.outbound.len() ==> !dedup::contains_fp(
                    cache,
                    fingerprint_of(#[trigger] m.outbound[a].text),
                )
            &&& forall|a: int|
                0 <= a < m.outbound.len() ==> dedup::contains_fp(
                    m.cache,
                    fingerprint_of(#[trigger] m.outbound[a].text),
                )
            &&& forall|fp: Seq<char>|
                dedup::contains_fp(cache, fp) ==> dedup::contains_fp(m.cache, fp)
        }),
    decreases items.len(),
{
    let m = run_items(items, kws, filter, cache, cap, last_id, last_time, now);
    if items.len() == 0 {
    } else {
        let it = items.first();
        if accepts(cache, kws, filter, it) {
            let fp0 = fingerprint_of(it.text);
            let c2 = dedup::insert_fp(cache, fp0, cap);
            assert(c2 == cache.push(fp0));
            assert(c2[c2.len() - 1] == fp0);
            assert(dedup::contains_fp(c2, fp0));
            assert forall|fp: Seq<char>|
                dedup::contains_fp(cache, fp) implies dedup::contains_fp(c2, fp) by {
                let w = choose|w: int| 0 <= w < cache.len() && cache[w] == fp;
                assert(c2[w] == fp);
            }
            lemma_forward_exactly_once(
                items.drop_first(),
                kws,
                filter,
                c2,
                cap,
                it.id,
                it.posted_at,
                now,
            );
            let rest = run_items(items.drop_first(), kws, filter, c2, cap, it.id, it.posted_at, now);
            assert(m.outbound == seq![outbound_of(it, now)] + rest.outbound);
            assert(m.outbound[0].text == it.text);
            assert(forall|a: int|
                0 <= a < rest.outbound.len() ==> m.outbound[a + 1] == rest.outbound[a]);
            assert forall|a: int|
                0 <= a < m.outbound.len() implies !dedup::contains_fp(
                cache,
                fingerprint_of(#[trigger] m.outbound[a].text),
            ) by {
                if a > 0 {
                    assert(m.outbound[a] == rest.outbound[a - 1]);
                    assert(!dedup::contains_fp(c2, fingerprint_of(rest.outbound[a - 1].text)));
                    if dedup::contains_fp(cache, fingerprint_of(m.outbound[a].text)) {
                        let w = choose|w: int|
                            0 <= w < cache.len() && cache[w] == fingerprint_of(
                                m.outbound[a].text,
                            );
                        assert(c2[w] == fingerprint_of(m.outbound[a].text));
                    }
                }
            }
            assert forall|a: int, b: int|
                0 <= a < b < m.outbound.len() implies fingerprint_of(
                #[trigger] m.outbound[a].text,
            ) != fingerprint_of(#[trigger] m.outbound[b].text) by {
                if a == 0 {
                    assert(m.outbound[b] == rest.outbound[b - 1]);
                    assert(!dedup::contains_fp(c2, fingerprint_of(rest.outbound[b - 1].text)));
                    assert(fingerprint_of(m.outbound[a].text) == fp0);
                } else {
                    assert(m.outbound[a] == rest.outbound[a - 1]);
                    assert(m.outbound[b] == rest.outbound[b - 1]);
                }
            }
            assert forall|a: int|
                0 <= a < m.outbound.len() implies dedup::contains_fp(
                m.cache,
                fingerprint_of(#[trigger] m.outbound[a].text),
            ) by {
                if a == 0 {
                    assert(dedup::contains_fp(c2, fp0));
                    assert(dedup::contains_fp(rest.cache, fp0));
                    assert(m.cache == rest.cache);
                } else {
                    assert(m.outbound[a] == rest.outbound[a - 1]);
                }
            }
        } else {
            lemma_forward_exactly_once(
                items.drop_first(),
                kws,
                filter,
                cache,
                cap,
                last_id,
                last_time,
                now,
            );
        }
    }
}

} // verus!
