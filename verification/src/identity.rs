//! Identity resolver: extracts the stable feed identifier from a feed URL,
//! in any of its accepted shapes. Pure string processing; no network access.

use vstd::prelude::*;
use crate::text;

verus! {

/// The index of the first occurrence of `sep`, or the length if none.
pub open spec fn first_sep(s: Seq<char>, sep: char) -> nat
    decreases s.len(),
{
    if s.len() == 0 {
        0
    } else if s[0] == sep {
        0
    } else {
        1 + first_sep(s.drop_first(), sep)
    }
}

proof fn lemma_first_sep_le_len(s: Seq<char>, sep: char)
    ensures
        first_sep(s, sep) <= s.len(),
    decreases s.len(),
{
    if s.len() > 0 && s[0] != sep {
        lemma_first_sep_le_len(s.drop_first(), sep);
    }
}

/// The string split at `sep`, empty segments discarded.
pub open spec fn split_nonempty(s: Seq<char>, sep: char) -> Seq<Seq<char>>
    decreases s.len(),
    via split_nonempty_decreases
{
    if s.len() == 0 {
        Seq::empty()
    } else if s[0] == sep {
        split_nonempty(s.drop_first(), sep)
    } else {
        let k = first_sep(s, sep);
        seq![s.take(k as int)] + split_nonempty(s.skip(k as int), sep)
    }
}

#[via_fn]
proof fn split_nonempty_decreases(s: Seq<char>, sep: char) {
    if s.len() > 0 && s[0] != sep {
        lemma_first_sep_le_len(s, sep);
        assert(first_sep(s, sep) >= 1);
    }
}

proof fn lemma_first_sep_at(s: Seq<char>, sep: char, k: int)
    requires
        0 <= k <= s.len(),
        forall|j: int| 0 <= j < k ==> s[j] != sep,
        k == s.len() || s[k] == sep,
    ensures
        first_sep(s, sep) == k,
    decreases k,
{
    if k == 0 {
    } else {
        assert(s[0] != sep);
        lemma_first_sep_at(s.drop_first(), sep, k - 1);
    }
}

/// Splits the characters at `sep` and keeps the non-empty segments, in order.
pub fn split_chars(v: &Vec<char>, sep: char) -> (r: Vec<Vec<char>>)
    ensures
        r.deep_view() == split_nonempty(v@, sep),
{
    let n = v.len();
    let mut r: Vec<Vec<char>> = Vec::new();
    let mut i: usize = 0;
    proof {
        assert(v@.skip(0) =~= v@);
        assert(r.deep_view() =~~= Seq::<Seq<char>>::empty());
        assert(r.deep_view() + split_nonempty(v@, sep) =~~= split_nonempty(v@, sep));
    }
    while i < n
        invariant
            n == v@.len(),
            i <= n,
            split_nonempty(v@, sep) == r.deep_view() + split_nonempty(v@.skip(i as int), sep),
        decreases n - i,
    {
        if v[i] == sep {
            proof {
                assert(v@.skip(i as int).drop_first() =~= v@.skip(i + 1));
            }
            i = i + 1;
        } else {
            let start = i;
            let mut seg: Vec<char> = Vec::new();
            while i < n && v[i] != sep
                invariant
                    n == v@.len(),
                    start <= i <= n,
                    forall|j: int| start <= j < i ==> v@[j] != sep,
                    seg@ == v@.subrange(start as int, i as int),
                decreases n - i,
            {
                seg.push(v[i]);
                i = i + 1;
                proof {
                    assert(seg@ =~= v@.subrange(start as int, i as int));
                }
            }
            proof {
                let rest = v@.skip(start as int);
                lemma_first_sep_at(rest, sep, i - start);
                assert(rest.take(i - start) =~= v@.subrange(start as int, i as int));
                assert(rest.skip(i - start) =~= v@.skip(i as int));
                assert(split_nonempty(rest, sep) == seq![seg@] + split_nonempty(
                    v@.skip(i as int),
                    sep,
                ));
            }
            let ghost old_r = r.deep_view();
            let ghost seg_view = seg@;
            r.push(seg);
            proof {
                assert(r.deep_view() =~~= old_r + seq![seg_view]);
                assert(r.deep_view() + split_nonempty(v@.skip(i as int), sep) =~~= old_r + (seq![
                    seg_view,
                ] + split_nonempty(v@.skip(i as int), sep)));
            }
        }
    }
    proof {
        assert(v@.skip(n as int) =~= Seq::<char>::empty());
        assert(r.deep_view() + Seq::<Seq<char>>::empty() =~= r.deep_view());
    }
    r
}

/// The feed identifier of a feed URL, if the URL has one of the accepted
/// shapes. With the URL trimmed and split on `/` (empty segments dropped):
/// a shape `.../i/lists/<id>` (segment 2 is `i`, segment 3 is `lists`),
/// checked first; then `.../<user>/lists/<id>` (segment 3 is `lists`), both
/// with at least five segments; then the four-segment `host/<owner>/lists/<id>`
/// (segment 2 is `lists`).
pub open spec fn list_id_of(url: Seq<char>) -> Option<Seq<char>> {
    let segs = split_nonempty(text::trim_seq(url), '/');
    if segs.len() >= 5 && segs[2] == seq!['i'] && segs[3] == seq!['l', 'i', 's', 't', 's'] {
        Some(segs[4])
    } else if segs.len() >= 5 && segs[3] == seq!['l', 'i', 's', 't', 's'] {
        Some(segs[4])
    } else if segs.len() == 4 && segs[2] == seq!['l', 'i', 's', 't', 's'] {
        Some(segs[3])
    } else {
        None
    }
}

/// Parses a feed list URL and extracts the list identifier, or `None` when
/// the URL is empty or matches none of the accepted shapes.
pub fn parse_list_id_from_url(url: &str) -> (r: Option<String>)
    ensures
        r.deep_view() == list_id_of(url@),
{
    let chars = text::chars_of(url);
    let trimmed = text::trim_chars(&chars);
    let segs = split_chars(&trimmed, '/');
    let i_seg = text::chars_of("i");
    let lists_seg = text::chars_of("lists");
    proof {
        reveal_strlit("i");
        reveal_strlit("lists");
        assert(i_seg@ =~= seq!['i']);
        assert(lists_seg@ =~= seq!['l', 'i', 's', 't', 's']);
    }
    if segs.len() >= 5 {
        proof {
            assert(segs.deep_view()[2] == segs@[2]@);
            assert(segs.deep_view()[3] == segs@[3]@);
            assert(segs.deep_view()[4] == segs@[4]@);
        }
        if text::eq_chars(&segs[2], &i_seg) && text::eq_chars(&segs[3], &lists_seg) {
            return Some(text::string_of(&segs[4]));
        }
        if text::eq_chars(&segs[3], &lists_seg) {
            return Some(text::string_of(&segs[4]));
        }
        return None;
    }
    if segs.len() == 4 {
        proof {
            assert(segs.deep_view()[2] == segs@[2]@);
            assert(segs.deep_view()[3] == segs@[3]@);
        }
        if text::eq_chars(&segs[2], &lists_seg) {
            return Some(text::string_of(&segs[3]));
        }
        return None;
    }
    None
}


/// The URL trimmed and rewritten onto the `x.com` host: where it names the
/// other host, that host's scheme-and-host prefixes are replaced.
pub open spec fn match_url_x(u: Seq<char>) -> Seq<char> {
    let t = text::trim_seq(u);
    if text::contains_sub(t, "twitter.com"@) {
        text::replace_all(
            text::replace_all(t, "https://twitter.com"@, "https://x.com"@),
            "http://twitter.com"@,
            "https://x.com"@,
        )
    } else {
        t
    }
}

/// The URL trimmed and rewritten onto the `twitter.com` host, the mirror
/// of `match_url_x`.
pub open spec fn match_url_twitter(u: Seq<char>) -> Seq<char> {
    let t = text::trim_seq(u);
    if text::contains_sub(t, "x.com"@) {
        text::replace_all(
            text::replace_all(t, "https://x.com"@, "https://twitter.com"@),
            "http://x.com"@,
            "https://twitter.com"@,
        )
    } else {
        t
    }
}

/// The exact list URL under each of the feed's two hostnames, so that a
/// per-page rule can match the same list on either host.
pub fn list_match_urls(list_url: &str) -> (r: (String, String))
    ensures
        r.0@ == match_url_x(list_url@),
        r.1@ == match_url_twitter(list_url@),
{
    let t = text::trim_chars(&text::chars_of(list_url));
    let twitter_host = text::chars_of("twitter.com");
    let x_host = text::chars_of("x.com");
    let https_twitter = text::chars_of("https://twitter.com");
    let http_twitter = text::chars_of("http://twitter.com");
    let https_x = text::chars_of("https://x.com");
    let http_x = text::chars_of("http://x.com");
    let x_form = if text::contains_chars(&t, &twitter_host) {
        text::replace_all_chars(
            &text::replace_all_chars(&t, &https_twitter, &https_x),
            &http_twitter,
            &https_x,
        )
    } else {
        let mut c: Vec<char> = Vec::new();
        c.extend_from_slice(t.as_slice());
        proof {
            assert(c@ =~= t@);
        }
        c
    };
    let twitter_form = if text::contains_chars(&t, &x_host) {
        text::replace_all_chars(
            &text::replace_all_chars(&t, &https_x, &https_twitter),
            &http_x,
            &https_twitter,
        )
    } else {
        let mut c: Vec<char> = Vec::new();
        c.extend_from_slice(t.as_slice());
        proof {
            assert(c@ =~= t@);
        }
        c
    };
    (text::string_of(&x_form), text::string_of(&twitter_form))
}

} // verus!
