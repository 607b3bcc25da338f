//! Destination router: maps a monitor's configured feed route to a storage
//! table name and an ingestion path, and derives an independent table name
//! from a human-readable monitor name. Both derivations are pure; callers
//! must not assume they agree for the same monitor.

use vstd::prelude::*;
use crate::identity;
use crate::text;

verus! {

/// The `_tweets` suffix every table name carries.
pub open spec fn tweets_suffix() -> Seq<char> {
    seq!['_', 't', 'w', 'e', 'e', 't', 's']
}

/// The table name for a feed route: `mlb` and `golf` map to their tables,
/// a value already ending in `_tweets` passes through, any other non-empty
/// value gets `_tweets` appended, and an empty value defaults to
/// `mlb_tweets`. The route is trimmed and folded to Unicode lower case
/// first.
pub open spec fn route_table(feed: Seq<char>) -> Seq<char> {
    let s = text::lower_of(text::trim_seq(feed));
    if s == seq!['m', 'l', 'b'] {
        seq!['m', 'l', 'b'] + tweets_suffix()
    } else if s == seq!['g', 'o', 'l', 'f'] {
        seq!['g', 'o', 'l', 'f'] + tweets_suffix()
    } else if s.len() >= 7 && s.skip(s.len() - 7) == tweets_suffix() {
        s
    } else if s.len() > 0 {
        s + tweets_suffix()
    } else {
        seq!['m', 'l', 'b'] + tweets_suffix()
    }
}

/// Normalizes a feed route to its storage table name.
pub fn feed_to_table_name(feed: &str) -> (r: String)
    ensures
        r@ == route_table(feed@),
{
    let chars = text::chars_of(feed);
    let trimmed = text::trim_chars(&chars);
    let s = text::lower_chars(&trimmed);
    let mlb = text::chars_of("mlb");
    let golf = text::chars_of("golf");
    let suffix = text::chars_of("_tweets");
    let mlb_tweets = text::chars_of("mlb_tweets");
    let golf_tweets = text::chars_of("golf_tweets");
    proof {
        reveal_strlit("mlb");
        reveal_strlit("golf");
        reveal_strlit("_tweets");
        reveal_strlit("mlb_tweets");
        reveal_strlit("golf_tweets");
        assert(mlb@ =~= seq!['m', 'l', 'b']);
        assert(golf@ =~= seq!['g', 'o', 'l', 'f']);
        assert(suffix@ =~= tweets_suffix());
        assert(mlb_tweets@ =~= seq!['m', 'l', 'b'] + tweets_suffix());
        assert(golf_tweets@ =~= seq!['g', 'o', 'l', 'f'] + tweets_suffix());
    }
    if text::eq_chars(&s, &mlb) {
        return text::string_of(&mlb_tweets);
    }
    if text::eq_chars(&s, &golf) {
        return text::string_of(&golf_tweets);
    }
    if text::ends_with_chars(&s, &suffix) {
        return text::string_of(&s);
    }
    if s.len() > 0 {
        let mut out = s;
        out.extend_from_slice(suffix.as_slice());
        return text::string_of(&out);
    }
    text::string_of(&mlb_tweets)
}

/// The ingestion path for a feed route: `/api/tweet/into/<table>`.
pub open spec fn api_path(feed: Seq<char>) -> Seq<char> {
    seq![
        '/',
        'a',
        'p',
        'i',
        '/',
        't',
        'w',
        'e',
        'e',
        't',
        '/',
        'i',
        'n',
        't',
        'o',
        '/',
    ] + route_table(feed)
}

/// The API path a monitor's accepted items are posted to.
pub fn tweet_api_path_for_feed(feed: &str) -> (r: String)
    ensures
        r@ == api_path(feed@),
{
    let prefix = text::chars_of("/api/tweet/into/");
    proof {
        reveal_strlit("/api/tweet/into/");
        assert(prefix@ =~= seq![
            '/',
            'a',
            'p',
            'i',
            '/',
            't',
            'w',
            'e',
            'e',
            't',
            '/',
            'i',
            'n',
            't',
            'o',
            '/',
        ]);
    }
    let table = feed_to_table_name(feed);
    let table_chars = text::chars_of(table.as_str());
    let mut out = prefix;
    out.extend_from_slice(table_chars.as_slice());
    text::string_of(&out)
}

/// The destination path of a monitor's forwards: the routed per-table path
/// when keyword filtering is on, the fixed scrape-all path when it is off.
pub fn destination_path(feed: &str, keyword_filter: bool) -> (r: String)
    ensures
        keyword_filter ==> r@ == api_path(feed@),
        !keyword_filter ==> r@ == "/api/tweet/all"@,
{
    if keyword_filter {
        tweet_api_path_for_feed(feed)
    } else {
        String::from_str("/api/tweet/all")
    }
}

/// One character of the name-slug mapping: ASCII alphanumerics are kept,
/// spaces and hyphens become underscores, everything else is dropped.
pub open spec fn slug_map(s: Seq<char>) -> Seq<char>
    decreases s.len(),
{
    if s.len() == 0 {
        Seq::empty()
    } else {
        let rest = slug_map(s.drop_first());
        if text::is_alnum(s[0]) {
            seq![s[0]] + rest
        } else if s[0] == ' ' || s[0] == '-' {
            seq!['_'] + rest
        } else {
            rest
        }
    }
}

proof fn lemma_slug_map_concat(a: Seq<char>, b: Seq<char>)
    ensures
        slug_map(a + b) == slug_map(a) + slug_map(b),
    decreases a.len(),
{
    if a.len() == 0 {
        assert(a + b =~= b);
        assert(slug_map(a) + slug_map(b) =~= slug_map(b));
    } else {
        lemma_slug_map_concat(a.drop_first(), b);
        assert((a + b).drop_first() =~= a.drop_first() + b);
        assert(slug_map(a + b) =~= slug_map(a) + slug_map(b));
    }
}

/// Applies `slug_map` to a character vector.
pub fn slug_map_chars(v: &Vec<char>) -> (r: Vec<char>)
    ensures
        r@ == slug_map(v@),
{
    let mut r: Vec<char> = Vec::new();
    let mut i: usize = 0;
    proof {
        assert(v@.take(0) =~= Seq::<char>::empty());
    }
    while i < v.len()
        invariant
            i <= v@.len(),
            r@ == slug_map(v@.take(i as int)),
        decreases v@.len() - i,
    {
        let c = v[i];
        if text::is_alnum_exec(c) {
            r.push(c);
        } else if c == ' ' || c == '-' {
            r.push('_');
        }
        proof {
            let cg = v@[i as int];
            lemma_slug_map_concat(v@.take(i as int), seq![cg]);
            assert(v@.take(i + 1) =~= v@.take(i as int) + seq![cg]);
            assert(seq![cg].drop_first() =~= Seq::<char>::empty());
            assert(slug_map(Seq::<char>::empty()) =~= Seq::<char>::empty());
            if text::is_alnum(cg) {
                assert(slug_map(seq![cg]) =~= seq![cg]);
            } else if cg == ' ' || cg == '-' {
                assert(slug_map(seq![cg]) =~= seq!['_']);
            } else {
                assert(slug_map(seq![cg]) =~= Seq::<char>::empty());
            }
            assert(r@ =~= slug_map(v@.take(i + 1)));
        }
        i = i + 1;
    }
    proof {
        assert(v@.take(v@.len() as int) =~= v@);
    }
    r
}

/// Segments joined with single underscores.
pub open spec fn join_underscore(segs: Seq<Seq<char>>) -> Seq<char>
    decreases segs.len(),
{
    if segs.len() == 0 {
        Seq::empty()
    } else if segs.len() == 1 {
        segs[0]
    } else {
        segs[0] + seq!['_'] + join_underscore(segs.drop_first())
    }
}

proof fn lemma_join_underscore_push(segs: Seq<Seq<char>>, x: Seq<char>)
    ensures
        join_underscore(segs.push(x)) == if segs.len() == 0 {
            x
        } else {
            join_underscore(segs) + seq!['_'] + x
        },
    decreases segs.len(),
{
    if segs.len() == 0 {
        assert(segs.push(x).len() == 1);
        assert(segs.push(x)[0] == x);
    } else {
        lemma_join_underscore_push(segs.drop_first(), x);
        assert(segs.push(x).drop_first() =~= segs.drop_first().push(x));
        if segs.len() == 1 {
            assert(join_underscore(segs.push(x)) =~= join_underscore(segs) + seq!['_'] + x);
        } else {
            assert(join_underscore(segs.push(x)) =~= join_underscore(segs) + seq!['_'] + x);
        }
    }
}

/// Joins segments with single underscores.
pub fn join_underscore_chars(segs: &Vec<Vec<char>>) -> (r: Vec<char>)
    ensures
        r@ == join_underscore(segs.deep_view()),
{
    let mut r: Vec<char> = Vec::new();
    let mut i: usize = 0;
    proof {
        assert(segs.deep_view().take(0) =~~= Seq::<Seq<char>>::empty());
    }
    while i < segs.len()
        invariant
            i <= segs@.len(),
            segs.deep_view().len() == segs@.len(),
            forall|j: int| 0 <= j < segs@.len() ==> segs.deep_view()[j] == segs@[j]@,
            r@ == join_underscore(segs.deep_view().take(i as int)),
        decreases segs@.len() - i,
    {
        if i > 0 {
            r.push('_');
        }
        r.extend_from_slice(segs[i].as_slice());
        proof {
            lemma_join_underscore_push(
                segs.deep_view().take(i as int),
                segs.deep_view()[i as int],
            );
            assert(segs.deep_view().take(i + 1) =~~= segs.deep_view().take(i as int).push(
                segs.deep_view()[i as int],
            ));
            assert(r@ =~= join_underscore(segs.deep_view().take(i + 1)));
        }
        i = i + 1;
    }
    proof {
        assert(segs.deep_view().take(segs.deep_view().len() as int) =~~= segs.deep_view());
    }
    r
}

/// The table name derived from a human-readable monitor name: lower-cased,
/// spaces and hyphens turned into underscores, other non-alphanumerics
/// dropped, repeated underscores collapsed and edges trimmed, `monitor`
/// when nothing is left, and `_tweets` appended.
pub open spec fn name_table(name: Seq<char>) -> Seq<char> {
    let slug = join_underscore(
        identity::split_nonempty(slug_map(text::lower_of(text::trim_seq(name))), '_'),
    );
    if slug.len() == 0 {
        seq!['m', 'o', 'n', 'i', 't', 'o', 'r'] + tweets_suffix()
    } else {
        slug + tweets_suffix()
    }
}

/// Derives a safe storage table name from a monitor's display name.
pub fn table_name_from_monitor_name(name: &str) -> (r: String)
    ensures
        r@ == name_table(name@),
{
    let chars = text::chars_of(name);
    let trimmed = text::trim_chars(&chars);
    let lowered = text::lower_chars(&trimmed);
    let mapped = slug_map_chars(&lowered);
    let segs = identity::split_chars(&mapped, '_');
    let joined = join_underscore_chars(&segs);
    let suffix = text::chars_of("_tweets");
    let monitor = text::chars_of("monitor");
    proof {
        reveal_strlit("_tweets");
        reveal_strlit("monitor");
        assert(suffix@ =~= tweets_suffix());
        assert(monitor@ =~= seq!['m', 'o', 'n', 'i', 't', 'o', 'r']);
    }
    let mut base = if joined.len() == 0 {
        monitor
    } else {
        joined
    };
    base.extend_from_slice(suffix.as_slice());
    text::string_of(&base)
}

} // verus!
