//! Parsing of feed events into video descriptors: the `imeta` tag format
//! (whitespace-separated `key value...` chunks), URL validation, author
//! profile metadata, and the author cache.

use crate::models::{clone_opt_string, NostrVideo, UserData, VideoVariant};
use vstd::prelude::*;
use vstd::string::StringExecFns;

verus! {

/// A feed event reduced to what the parsers read: the author's bech32 key,
/// the free-form content, and the tags, each a list of strings.
#[derive(Debug)]
pub struct EventData {
    pub pubkey_bech32: Option<String>,
    pub content: String,
    pub tags: Vec<Vec<String>>,
}

/// Relies on `str::chars`: the characters of the string, in order.
#[verifier::external_body]
fn string_to_chars(s: &str) -> (r: Vec<char>)
    ensures
        r@ == s@,
{
    s.chars().collect()
}

/// Relies on `String`'s `FromIterator` over characters: the string holding
/// exactly these characters, in order.
#[verifier::external_body]
fn chars_to_string(cs: &Vec<char>) -> (r: String)
    ensures
        r@ == cs@,
{
    cs.iter().collect()
}

/// A character with the Unicode `White_Space` property — the token
/// separator of the tag format: the ASCII whitespace characters, next line,
/// no-break space, ogham space mark, the en-quad..hair-space block, the
/// line and paragraph separators, narrow no-break space, medium
/// mathematical space, and ideographic space.
pub open spec fn is_ws(c: char) -> bool {
    let u = c as u32;
    ||| u == 0x9
    ||| u == 0xA
    ||| u == 0xB
    ||| u == 0xC
    ||| u == 0xD
    ||| u == 0x20
    ||| u == 0x85
    ||| u == 0xA0
    ||| u == 0x1680
    ||| (0x2000 <= u && u <= 0x200A)
    ||| u == 0x2028
    ||| u == 0x2029
    ||| u == 0x202F
    ||| u == 0x205F
    ||| u == 0x3000
}

fn is_ws_exec(c: char) -> (r: bool)
    ensures
        r == is_ws(c),
{
    let u = c as u32;
    u == 0x9 || u == 0xA || u == 0xB || u == 0xC || u == 0xD || u == 0x20 || u == 0x85
        || u == 0xA0 || u == 0x1680 || (0x2000 <= u && u <= 0x200A) || u == 0x2028 || u == 0x2029
        || u == 0x202F || u == 0x205F || u == 0x3000
}

/// The length of the whitespace-free token at the front of `s`.
pub open spec fn token_len(s: Seq<char>) -> nat
    decreases s.len(),
{
    if s.len() == 0 || is_ws(s[0]) {
        0
    } else {
        1 + token_len(s.drop_first())
    }
}

/// The front token is never longer than the whole string.
pub proof fn lemma_token_len_le(s: Seq<char>)
    ensures
        token_len(s) <= s.len(),
    decreases s.len(),
{
    if s.len() > 0 && !is_ws(s[0]) {
        lemma_token_len_le(s.drop_first());
    }
}

/// The whitespace-separated tokens of `s`, in order, empties dropped.
pub open spec fn spec_tokens(s: Seq<char>) -> Seq<Seq<char>>
    decreases s.len(),
    via spec_tokens_decreases
{
    if s.len() == 0 {
        Seq::empty()
    } else if is_ws(s[0]) {
        spec_tokens(s.drop_first())
    } else {
        seq![s.take(token_len(s) as int)] + spec_tokens(s.skip(token_len(s) as int))
    }
}

#[via_fn]
proof fn spec_tokens_decreases(s: Seq<char>) {
    if s.len() > 0 && !is_ws(s[0]) {
        lemma_token_len_le(s);
    }
}

/// The front token ends exactly where the characters stop being non-white.
proof fn lemma_token_len_at(s: Seq<char>, n: int)
    requires
        0 <= n <= s.len(),
        forall|k: int| 0 <= k < n ==> !is_ws(#[trigger] s[k]),
        n == s.len() || is_ws(s[n]),
    ensures
        token_len(s) == n,
    decreases s.len(),
{
    if n == 0 {
    } else {
        assert(!is_ws(s[0]));
        assert forall|k: int| 0 <= k < n - 1 implies !is_ws(#[trigger] s.drop_first()[k]) by {
            assert(s.drop_first()[k] == s[k + 1]);
        }
        if n < s.len() {
            assert(s.drop_first()[n - 1] == s[n]);
        }
        lemma_token_len_at(s.drop_first(), n - 1);
    }
}

/// Splitting a suffix that starts with whitespace drops that character.
proof fn lemma_tokens_skip_ws(s: Seq<char>, i: int)
    requires
        0 <= i < s.len(),
        is_ws(s[i]),
    ensures
        spec_tokens(s.skip(i)) == spec_tokens(s.skip(i + 1)),
{
    assert(s.skip(i)[0] == s[i]);
    assert(s.skip(i).drop_first() =~= s.skip(i + 1));
}

/// The views of a list of character vectors.
pub open spec fn views_of(ts: Seq<Vec<char>>) -> Seq<Seq<char>> {
    ts.map(|i: int, t: Vec<char>| t@)
}

/// Splits a character vector into its whitespace-separated tokens.
fn split_ws(s: &Vec<char>) -> (r: Vec<Vec<char>>)
    ensures
        views_of(r@) == spec_tokens(s@),
{
    let n = s.len();
    let mut r: Vec<Vec<char>> = Vec::new();
    let mut i: usize = 0;
    proof {
        assert(s@.skip(0) =~= s@);
        assert(views_of(r@) =~= Seq::<Seq<char>>::empty());
        assert(Seq::<Seq<char>>::empty() + spec_tokens(s@) =~= spec_tokens(s@));
    }
    while i < n
        invariant
            n == s@.len(),
            i <= n,
            spec_tokens(s@) == views_of(r@) + spec_tokens(s@.skip(i as int)),
        decreases n - i,
    {
        if is_ws_exec(s[i]) {
            proof {
                lemma_tokens_skip_ws(s@, i as int);
            }
            i = i + 1;
        } else {
            let start = i;
            let mut tok: Vec<char> = Vec::new();
            let mut j: usize = i;
            while j < n && !is_ws_exec(s[j])
                invariant
                    n == s@.len(),
                    start <= j <= n,
                    tok@ == s@.subrange(start as int, j as int),
                    forall|k: int| start <= k < j ==> !is_ws(#[trigger] s@[k]),
                decreases n - j,
            {
                tok.push(s[j]);
                proof {
                    assert(s@.subrange(start as int, j + 1) =~= s@.subrange(
                        start as int,
                        j as int,
                    ).push(s@[j as int]));
                }
                j = j + 1;
            }
            proof {
                let suf = s@.skip(start as int);
                assert forall|k: int| 0 <= k < j - start implies !is_ws(#[trigger] suf[k]) by {
                    assert(suf[k] == s@[start + k]);
                }
                if j < n {
                    assert(suf[j - start] == s@[j as int]);
                }
                lemma_token_len_at(suf, j - start);
                assert(suf.take(j - start) =~= s@.subrange(start as int, j as int));
                assert(suf.skip(j - start) =~= s@.skip(j as int));
                assert(spec_tokens(suf) == seq![tok@] + spec_tokens(s@.skip(j as int)));
                assert(views_of(r@.push(tok)) =~= views_of(r@).push(tok@));
                assert(views_of(r@) + (seq![tok@] + spec_tokens(s@.skip(j as int)))
                    =~= views_of(r@).push(tok@) + spec_tokens(s@.skip(j as int)));
            }
            r.push(tok);
            i = j;
        }
    }
    proof {
        assert(s@.skip(n as int) =~= Seq::<char>::empty());
        assert(views_of(r@) + Seq::<Seq<char>>::empty() =~= views_of(r@));
    }
    r
}

/// Tokens joined with single spaces.
pub open spec fn spec_join_space(parts: Seq<Seq<char>>) -> Seq<char>
    decreases parts.len(),
{
    if parts.len() == 0 {
        Seq::empty()
    } else if parts.len() == 1 {
        parts[0]
    } else {
        spec_join_space(parts.drop_last()) + seq![' '] + parts.last()
    }
}

/// Joins tokens with single spaces.
fn join_space(parts: &Vec<Vec<char>>, from: usize) -> (r: Vec<char>)
    requires
        from <= parts@.len(),
    ensures
        r@ == spec_join_space(views_of(parts@.skip(from as int))),
{
    let n = parts.len();
    let mut r: Vec<char> = Vec::new();
    let mut i: usize = from;
    while i < n
        invariant
            n == parts@.len(),
            from <= i <= n,
            r@ == spec_join_space(views_of(parts@.subrange(from as int, i as int))),
        decreases n - i,
    {
        if i > from {
            r.push(' ');
        }
        let mut k: usize = 0;
        let ghost r_mid = r@;
        while k < parts[i].len()
            invariant
                n == parts@.len(),
                from <= i < n,
                k <= parts@[i as int]@.len(),
                r@ == r_mid + parts@[i as int]@.take(k as int),
            decreases parts@[i as int]@.len() - k,
        {
            r.push(parts[i][k]);
            proof {
                assert(parts@[i as int]@.take(k + 1) =~= parts@[i as int]@.take(k as int).push(
                    parts@[i as int]@[k as int],
                ));
                assert(r_mid + parts@[i as int]@.take(k as int).push(parts@[i as int]@[k as int])
                    =~= (r_mid + parts@[i as int]@.take(k as int)).push(
                    parts@[i as int]@[k as int],
                ));
            }
            k = k + 1;
        }
        proof {
            let pre = views_of(parts@.subrange(from as int, i as int));
            let post = views_of(parts@.subrange(from as int, i + 1));
            assert(post.drop_last() =~= pre);
            assert(post.last() == parts@[i as int]@);
            assert(parts@[i as int]@.take(parts@[i as int]@.len() as int)
                =~= parts@[i as int]@);
            if i == from {
                assert(r@ =~= spec_join_space(post));
            } else {
                assert(r_mid =~= spec_join_space(pre) + seq![' ']);
                assert(r@ =~= spec_join_space(pre) + seq![' '] + post.last());
            }
        }
        i = i + 1;
    }
    proof {
        assert(parts@.subrange(from as int, n as int) =~= parts@.skip(from as int));
    }
    r
}

/// The key/value reading of one tag chunk: the first token is the key, the
/// remaining tokens joined by single spaces are the value; a chunk with no
/// tokens has no reading.
pub open spec fn spec_chunk_kv(s: Seq<char>) -> Option<(Seq<char>, Seq<char>)> {
    let toks = spec_tokens(s);
    if toks.len() == 0 {
        None
    } else {
        Some((toks[0], spec_join_space(toks.drop_first())))
    }
}

/// The key/value pairs of a list of chunks, in order, unreadable chunks
/// dropped.
pub open spec fn spec_kvs(chunks: Seq<Seq<char>>) -> Seq<(Seq<char>, Seq<char>)>
    decreases chunks.len(),
{
    if chunks.len() == 0 {
        Seq::empty()
    } else {
        let rest = spec_kvs(chunks.drop_last());
        match spec_chunk_kv(chunks.last()) {
            Some(kv) => rest.push(kv),
            None => rest,
        }
    }
}

/// The value of the first pair carrying `key`.
pub open spec fn spec_first_value(kvs: Seq<(Seq<char>, Seq<char>)>, key: Seq<char>) -> Option<
    Seq<char>,
>
    decreases kvs.len(),
{
    if kvs.len() == 0 {
        None
    } else if kvs[0].0 == key {
        Some(kvs[0].1)
    } else {
        spec_first_value(kvs.drop_first(), key)
    }
}

/// The values of every pair carrying `key`, in order.
pub open spec fn spec_all_values(kvs: Seq<(Seq<char>, Seq<char>)>, key: Seq<char>) -> Seq<
    Seq<char>,
>
    decreases kvs.len(),
{
    if kvs.len() == 0 {
        Seq::empty()
    } else {
        let rest = spec_all_values(kvs.drop_first(), key);
        if kvs[0].0 == key {
            seq![kvs[0].1] + rest
        } else {
            rest
        }
    }
}

/// The views of a list of string pairs.
pub open spec fn kv_views(kvs: Seq<(String, String)>) -> Seq<(Seq<char>, Seq<char>)> {
    kvs.map(|i: int, p: (String, String)| (p.0@, p.1@))
}

/// Reads the key/value pairs out of the chunks of one tag, skipping the
/// leading marker token at position 0.
fn read_tag_kvs(tag: &Vec<String>) -> (r: Vec<(String, String)>)
    requires
        tag@.len() >= 1,
    ensures
        kv_views(r@) == spec_kvs(tag@.map(|i: int, c: String| c@).skip(1)),
{
    let ghost chunks = tag@.map(|i: int, c: String| c@).skip(1);
    let mut r: Vec<(String, String)> = Vec::new();
    let mut i: usize = 1;
    while i < tag.len()
        invariant
            tag@.len() >= 1,
            1 <= i <= tag@.len(),
            chunks == tag@.map(|x: int, c: String| c@).skip(1),
            kv_views(r@) == spec_kvs(chunks.take(i - 1)),
        decreases tag@.len() - i,
    {
        let cs = string_to_chars(tag[i].as_str());
        let toks = split_ws(&cs);
        proof {
            assert(chunks[i - 1] == tag@[i as int]@);
            assert(chunks.take(i as int).drop_last() =~= chunks.take(i - 1));
            assert(chunks.take(i as int).last() == chunks[i - 1]);
        }
        if toks.len() > 0 {
            let key = chars_to_string(&toks[0]);
            let joined = join_space(&toks, 1);
            let value = chars_to_string(&joined);
            proof {
                assert(views_of(toks@)[0] == toks@[0]@);
                assert(views_of(toks@).drop_first() =~= views_of(toks@.skip(1)));
                assert(kv_views(r@.push((key, value))) =~= kv_views(r@).push((key@, value@)));
            }
            r.push((key, value));
        } else {
            proof {
                assert(spec_tokens(chunks[i - 1]).len() == 0);
            }
        }
        i = i + 1;
    }
    proof {
        assert(chunks.take(chunks.len() as int) =~= chunks);
    }
    r
}

/// `o` is the string form of the spec-level optional character sequence.
pub open spec fn opt_matches(o: Option<String>, s: Option<Seq<char>>) -> bool {
    match o {
        Some(x) => s is Some && x@ == s.unwrap(),
        None => s is None,
    }
}

/// `v` is the string form of the spec-level list of character sequences.
pub open spec fn strs_match(v: Seq<String>, s: Seq<Seq<char>>) -> bool {
    v.len() == s.len() && forall|i: int| 0 <= i < v.len() ==> #[trigger] v[i]@ == s[i]
}

/// Finds the value of the first pair carrying `key`.
fn first_value(kvs: &Vec<(String, String)>, key: &String) -> (r: Option<String>)
    ensures
        opt_matches(r, spec_first_value(kv_views(kvs@), key@)),
{
    let mut i: usize = 0;
    proof {
        assert(kv_views(kvs@).skip(0) =~= kv_views(kvs@));
    }
    while i < kvs.len()
        invariant
            i <= kvs@.len(),
            spec_first_value(kv_views(kvs@), key@) == spec_first_value(
                kv_views(kvs@).skip(i as int),
                key@,
            ),
        decreases kvs@.len() - i,
    {
        proof {
            assert(kv_views(kvs@).skip(i as int)[0] == (kvs@[i as int].0@, kvs@[i as int].1@));
            assert(kv_views(kvs@).skip(i as int).drop_first() =~= kv_views(kvs@).skip(i + 1));
        }
        if kvs[i].0.eq(key) {
            return Some(kvs[i].1.clone());
        }
        i = i + 1;
    }
    proof {
        assert(kv_views(kvs@).skip(kvs@.len() as int) =~= Seq::<(Seq<char>, Seq<char>)>::empty());
    }
    None
}

/// Collects the values of every pair carrying `key`, in order.
fn all_values(kvs: &Vec<(String, String)>, key: &String) -> (r: Vec<String>)
    ensures
        strs_match(r@, spec_all_values(kv_views(kvs@), key@)),
{
    let mut r: Vec<String> = Vec::new();
    let mut i: usize = 0;
    proof {
        assert(kv_views(kvs@).skip(0) =~= kv_views(kvs@));
        assert(r@.map(|x: int, v: String| v@) =~= Seq::<Seq<char>>::empty());
        assert(Seq::<Seq<char>>::empty() + spec_all_values(kv_views(kvs@), key@)
            =~= spec_all_values(kv_views(kvs@), key@));
    }
    while i < kvs.len()
        invariant
            i <= kvs@.len(),
            spec_all_values(kv_views(kvs@), key@) == r@.map(|x: int, v: String| v@)
                + spec_all_values(kv_views(kvs@).skip(i as int), key@),
        decreases kvs@.len() - i,
    {
        proof {
            assert(kv_views(kvs@).skip(i as int)[0] == (kvs@[i as int].0@, kvs@[i as int].1@));
            assert(kv_views(kvs@).skip(i as int).drop_first() =~= kv_views(kvs@).skip(i + 1));
        }
        if kvs[i].0.eq(key) {
            let v = kvs[i].1.clone();
            proof {
                assert(r@.push(v).map(|x: int, w: String| w@) =~= r@.map(
                    |x: int, w: String| w@,
                ).push(v@));
                assert(r@.map(|x: int, w: String| w@) + (seq![v@] + spec_all_values(
                    kv_views(kvs@).skip(i + 1),
                    key@,
                )) =~= r@.map(|x: int, w: String| w@).push(v@) + spec_all_values(
                    kv_views(kvs@).skip(i + 1),
                    key@,
                ));
            }
            r.push(v);
        }
        i = i + 1;
    }
    proof {
        assert(kv_views(kvs@).skip(kvs@.len() as int) =~= Seq::<(Seq<char>, Seq<char>)>::empty());
        assert(r@.map(|x: int, v: String| v@) + Seq::<Seq<char>>::empty() =~= r@.map(
            |x: int, v: String| v@,
        ));
    }
    r
}


/// What the URL parser recovers from a string: its scheme and host text.
/// The result depends on the string alone.
pub uninterp spec fn url_parts_of(s: Seq<char>) -> Option<(Seq<char>, Seq<char>)>;

/// Relies on `url::Url::parse`, `Url::scheme` (the scheme in lower case)
/// and `Url::host_str`: the parse of a string depends on the string alone.
/// A URL that parses but has no host yields an empty host string here.
#[verifier::external_body]
fn parse_url_parts(u: &str) -> (r: Option<(String, String)>)
    ensures
        match r {
            Some(p) => url_parts_of(u@) == Some((p.0@, p.1@)),
            None => url_parts_of(u@) is None,
        },
{
    match url::Url::parse(u) {
        Ok(parsed) => {
            let scheme = parsed.scheme().to_string();
            let host = parsed.host_str().unwrap_or("").to_string();
            Some((scheme, host))
        },
        Err(_) => None,
    }
}

/// A usable media URL: it parses, its scheme is `http` or `https`, and it
/// names a host.
pub open spec fn spec_is_valid_http_url(s: Seq<char>) -> bool {
    match url_parts_of(s) {
        Some(p) => (p.0 == "http"@ || p.0 == "https"@) && p.1.len() > 0,
        None => false,
    }
}

/// Decides whether a string is a usable `http(s)` media URL.
pub fn is_valid_http_url(url: &str) -> (r: bool)
    ensures
        r == spec_is_valid_http_url(url@),
{
    match parse_url_parts(url) {
        Some((scheme, host)) => {
            let http = String::from_str("http");
            let https = String::from_str("https");
            (scheme.eq(&http) || scheme.eq(&https)) && !host.as_str().is_empty()
        },
        None => false,
    }
}

/// A tag is a media tag when its marker token is `imeta`.
pub open spec fn spec_is_imeta(tag: Seq<Seq<char>>) -> bool {
    tag.len() > 0 && tag[0] == "imeta"@
}

/// The media tags of an event, in order.
pub open spec fn spec_imeta_tags(tags: Seq<Seq<Seq<char>>>) -> Seq<Seq<Seq<char>>>
    decreases tags.len(),
{
    if tags.len() == 0 {
        Seq::empty()
    } else {
        let rest = spec_imeta_tags(tags.drop_last());
        if spec_is_imeta(tags.last()) {
            rest.push(tags.last())
        } else {
            rest
        }
    }
}

/// The variant a media tag describes, field by field: single-valued fields
/// take the first chunk carrying the key, list fields collect every chunk.
pub open spec fn spec_variant_matches(v: VideoVariant, tag: Seq<Seq<char>>) -> bool {
    let kvs = spec_kvs(tag.drop_first());
    &&& opt_matches(v.title, spec_first_value(kvs, "title"@))
    &&& opt_matches(v.resolution, spec_first_value(kvs, "dim"@))
    &&& opt_matches(v.url, spec_first_value(kvs, "url"@))
    &&& opt_matches(v.hash, spec_first_value(kvs, "x"@))
    &&& opt_matches(v.mime_type, spec_first_value(kvs, "m"@))
    &&& opt_matches(v.service, spec_first_value(kvs, "service"@))
    &&& strs_match(v.images@, spec_all_values(kvs, "image"@))
    &&& strs_match(v.fallbacks@, spec_all_values(kvs, "fallback"@))
}

/// Reads every media variant out of an event's `imeta` tags: each tag's
/// chunks are split into whitespace-separated tokens, the first token of a
/// chunk is the key and the rest joined by spaces the value.
pub fn parse_video_variants(event: &EventData) -> (r: Vec<VideoVariant>)
    ensures
        ({
            let its = spec_imeta_tags(event.tags.deep_view());
            r@.len() == its.len() && forall|i: int|
                0 <= i < its.len() ==> spec_variant_matches(#[trigger] r@[i], its[i])
        }),
{
    let ghost tags_dv = event.tags.deep_view();
    let imeta = String::from_str("imeta");
    let key_title = String::from_str("title");
    let key_dim = String::from_str("dim");
    let key_url = String::from_str("url");
    let key_hash = String::from_str("x");
    let key_mime = String::from_str("m");
    let key_service = String::from_str("service");
    let key_image = String::from_str("image");
    let key_fallback = String::from_str("fallback");
    let mut r: Vec<VideoVariant> = Vec::new();
    let mut i: usize = 0;
    while i < event.tags.len()
        invariant
            tags_dv == event.tags.deep_view(),
            i <= tags_dv.len(),
            tags_dv.len() == event.tags@.len(),
            imeta@ == "imeta"@,
            key_title@ == "title"@,
            key_dim@ == "dim"@,
            key_url@ == "url"@,
            key_hash@ == "x"@,
            key_mime@ == "m"@,
            key_service@ == "service"@,
            key_image@ == "image"@,
            key_fallback@ == "fallback"@,
            r@.len() == spec_imeta_tags(tags_dv.take(i as int)).len(),
            forall|k: int|
                0 <= k < r@.len() ==> spec_variant_matches(
                    #[trigger] r@[k],
                    spec_imeta_tags(tags_dv.take(i as int))[k],
                ),
        decreases tags_dv.len() - i,
    {
        let tag = &event.tags[i];
        let ghost tag_dv = tags_dv[i as int];
        proof {
            assert(tag_dv == event.tags@[i as int].deep_view());
            assert(tags_dv.take(i + 1).drop_last() =~= tags_dv.take(i as int));
            assert(tags_dv.take(i + 1).last() == tags_dv[i as int]);
        }
        let mut keep = false;
        if tag.len() > 0 {
            if tag[0].eq(&imeta) {
                keep = true;
            }
        }
        proof {
            if tag@.len() > 0 {
                assert(tag_dv[0] == tag@[0]@);
            }
            assert(keep == spec_is_imeta(tag_dv));
        }
        if keep {
            let kvs = read_tag_kvs(tag);
            proof {
                assert(tag@.map(|x: int, c: String| c@) =~= tag_dv);
                assert(tag@.map(|x: int, c: String| c@).skip(1) =~= tag_dv.drop_first());
            }
            let title = first_value(&kvs, &key_title);
            let resolution = first_value(&kvs, &key_dim);
            let url = first_value(&kvs, &key_url);
            let hash = first_value(&kvs, &key_hash);
            let mime_type = first_value(&kvs, &key_mime);
            let service = first_value(&kvs, &key_service);
            let images = all_values(&kvs, &key_image);
            let fallbacks = all_values(&kvs, &key_fallback);
            let variant = VideoVariant {
                title,
                resolution,
                url,
                hash,
                mime_type,
                images,
                fallbacks,
                service,
            };
            proof {
                assert(spec_variant_matches(variant, tag_dv));
            }
            r.push(variant);
        }
        i = i + 1;
    }
    proof {
        assert(tags_dv.take(tags_dv.len() as int) =~= tags_dv);
    }
    r
}

/// The content hash a media tag names.
pub open spec fn tag_hash(tag: Seq<Seq<char>>) -> Option<Seq<char>> {
    spec_first_value(spec_kvs(tag.drop_first()), "x"@)
}

/// The media URL a media tag names.
pub open spec fn tag_url(tag: Seq<Seq<char>>) -> Option<Seq<char>> {
    spec_first_value(spec_kvs(tag.drop_first()), "url"@)
}

/// The title a media tag names.
pub open spec fn tag_title(tag: Seq<Seq<char>>) -> Option<Seq<char>> {
    spec_first_value(spec_kvs(tag.drop_first()), "title"@)
}

/// A media tag that yields a descriptor: it names a non-empty content hash
/// and a usable `http(s)` URL.
pub open spec fn spec_tag_kept(tag: Seq<Seq<char>>) -> bool {
    &&& tag_hash(tag) is Some
    &&& tag_hash(tag).unwrap().len() > 0
    &&& tag_url(tag) is Some
    &&& spec_is_valid_http_url(tag_url(tag).unwrap())
}

/// The media tags that yield descriptors, in order.
pub open spec fn spec_kept_tags(its: Seq<Seq<Seq<char>>>) -> Seq<Seq<Seq<char>>>
    decreases its.len(),
{
    if its.len() == 0 {
        Seq::empty()
    } else {
        let rest = spec_kept_tags(its.drop_last());
        if spec_tag_kept(its.last()) {
            rest.push(its.last())
        } else {
            rest
        }
    }
}

/// The descriptor a kept media tag yields, for the given author key: the
/// hash becomes the id, the URL and title are carried over, the author is
/// attached unresolved, and the remaining fields take their defaults.
pub open spec fn spec_video_matches_tag(
    n: NostrVideo,
    tag: Seq<Seq<char>>,
    npub: Option<String>,
) -> bool {
    &&& n.id@ == tag_hash(tag).unwrap()
    &&& n.url@ == tag_url(tag).unwrap()
    &&& n.user.npub == npub
    &&& n.user.name is None
    &&& n.user.profile_picture is None
    &&& n.title@ == (match tag_title(tag) {
        Some(t) => t,
        None => Seq::<char>::empty(),
    })
    &&& n.song_name@ == "Unknown"@
    &&& n.likes@ == ""@
    &&& n.comments@ == ""@
}

/// Turns one feed event into descriptors: one per media tag that names a
/// non-empty content hash and a usable `http(s)` URL, in tag order.
pub fn parse_event_as_video(event: &EventData) -> (r: Vec<NostrVideo>)
    ensures
        ({
            let kept = spec_kept_tags(spec_imeta_tags(event.tags.deep_view()));
            r@.len() == kept.len() && forall|i: int|
                0 <= i < kept.len() ==> spec_video_matches_tag(
                    #[trigger] r@[i],
                    kept[i],
                    event.pubkey_bech32,
                )
        }),
{
    let ghost its = spec_imeta_tags(event.tags.deep_view());
    let variants = parse_video_variants(event);
    let mut r: Vec<NostrVideo> = Vec::new();
    let mut i: usize = 0;
    while i < variants.len()
        invariant
            its == spec_imeta_tags(event.tags.deep_view()),
            variants@.len() == its.len(),
            forall|k: int|
                0 <= k < its.len() ==> spec_variant_matches(#[trigger] variants@[k], its[k]),
            i <= its.len(),
            r@.len() == spec_kept_tags(its.take(i as int)).len(),
            forall|k: int|
                0 <= k < r@.len() ==> spec_video_matches_tag(
                    #[trigger] r@[k],
                    spec_kept_tags(its.take(i as int))[k],
                    event.pubkey_bech32,
                ),
        decreases its.len() - i,
    {
        let v = &variants[i];
        proof {
            assert(its.take(i + 1).drop_last() =~= its.take(i as int));
            assert(its.take(i + 1).last() == its[i as int]);
        }
        let mut keep = false;
        match (&v.hash, &v.url) {
            (Some(h), Some(u)) => {
                if !h.as_str().is_empty() && is_valid_http_url(u.as_str()) {
                    keep = true;
                }
            },
            _ => {},
        }
        proof {
            assert(keep == spec_tag_kept(its[i as int]));
        }
        if keep {
            let hash = match &v.hash {
                Some(h) => h.clone(),
                None => String::new(),
            };
            let url = match &v.url {
                Some(u) => u.clone(),
                None => String::new(),
            };
            let title = match &v.title {
                Some(t) => t.clone(),
                None => String::new(),
            };
            let video = NostrVideo {
                id: hash,
                user: UserData {
                    npub: clone_opt_string(&event.pubkey_bech32),
                    name: None,
                    profile_picture: None,
                },
                title,
                song_name: String::from_str("Unknown"),
                likes: String::from_str(""),
                comments: String::from_str(""),
                url,
            };
            proof {
                assert(spec_video_matches_tag(video, its[i as int], event.pubkey_bech32));
            }
            r.push(video);
        }
        i = i + 1;
    }
    proof {
        assert(its.take(its.len() as int) =~= its);
    }
    r
}

/// The view of an optional string.
pub open spec fn opt_str_view(o: Option<String>) -> Option<Seq<char>> {
    match o {
        Some(s) => Some(s@),
        None => None,
    }
}

/// What the profile parser recovers from a profile document: the `name`
/// and `picture` string fields when the document is valid JSON, nothing
/// otherwise. The result depends on the text alone.
pub uninterp spec fn profile_fields_of(s: Seq<char>) -> Option<
    (Option<Seq<char>>, Option<Seq<char>>),
>;

/// Relies on `serde_json::from_str` for `Value`, `Value::get` and
/// `Value::as_str`: the parse of a profile document depends on the text
/// alone.
#[verifier::external_body]
fn parse_profile_json(content: &str) -> (r: Option<(Option<String>, Option<String>)>)
    ensures
        match r {
            Some(p) => profile_fields_of(content@) == Some(
                (opt_str_view(p.0), opt_str_view(p.1)),
            ),
            None => profile_fields_of(content@) is None,
        },
{
    match serde_json::from_str::<serde_json::Value>(content) {
        Ok(v) => {
            let name = v.get("name").and_then(|x| x.as_str()).map(|s| s.to_string());
            let picture = v.get("picture").and_then(|x| x.as_str()).map(|s| s.to_string());
            Some((name, picture))
        },
        Err(_) => None,
    }
}

/// The author profiles a batch of metadata events yields: one entry per
/// event that names its author and parses as JSON, in event order.
pub open spec fn spec_profiles(events: Seq<EventData>) -> Seq<
    (Seq<char>, (Option<Seq<char>>, Option<Seq<char>>)),
>
    decreases events.len(),
{
    if events.len() == 0 {
        Seq::empty()
    } else {
        let rest = spec_profiles(events.drop_last());
        match events.last().pubkey_bech32 {
            Some(pk) => match profile_fields_of(events.last().content@) {
                Some(f) => rest.push((pk@, f)),
                None => rest,
            },
            None => rest,
        }
    }
}

/// Reads author metadata out of a batch of profile events: each event that
/// names its author and carries a valid JSON document contributes that
/// author's display name and picture URL.
pub fn parse_user_metadata(metadata_events: &Vec<EventData>) -> (r: Vec<(String, UserData)>)
    ensures
        ({
            let ps = spec_profiles(metadata_events@);
            r@.len() == ps.len() && forall|i: int|
                0 <= i < ps.len() ==> {
                    &&& (#[trigger] r@[i]).0@ == ps[i].0
                    &&& r@[i].1.npub is None
                    &&& opt_str_view(r@[i].1.name) == ps[i].1.0
                    &&& opt_str_view(r@[i].1.profile_picture) == ps[i].1.1
                }
        }),
{
    let ghost events = metadata_events@;
    let mut r: Vec<(String, UserData)> = Vec::new();
    let mut i: usize = 0;
    while i < metadata_events.len()
        invariant
            events == metadata_events@,
            i <= events.len(),
            r@.len() == spec_profiles(events.take(i as int)).len(),
            forall|k: int|
                0 <= k < r@.len() ==> {
                    let ps = spec_profiles(events.take(i as int));
                    &&& (#[trigger] r@[k]).0@ == ps[k].0
                    &&& r@[k].1.npub is None
                    &&& opt_str_view(r@[k].1.name) == ps[k].1.0
                    &&& opt_str_view(r@[k].1.profile_picture) == ps[k].1.1
                },
        decreases events.len() - i,
    {
        let ev = &metadata_events[i];
        proof {
            assert(events.take(i + 1).drop_last() =~= events.take(i as int));
            assert(events.take(i + 1).last() == events[i as int]);
        }
        match &ev.pubkey_bech32 {
            Some(pk) => {
                match parse_profile_json(ev.content.as_str()) {
                    Some((name, picture)) => {
                        let user = UserData { npub: None, name, profile_picture: picture };
                        r.push((pk.clone(), user));
                    },
                    None => {},
                }
            },
            None => {},
        }
        i = i + 1;
    }
    proof {
        assert(events.take(events.len() as int) =~= events);
    }
    r
}

/// The author-metadata cache: resolved profiles keyed by the author's
/// bech32 key. A later entry for the same key wins, mirroring overwrite
/// semantics.
#[derive(Debug)]
pub struct AuthorCache {
    pub entries: Vec<(String, UserData)>,
}

/// The profile a cache holds for `key`: the latest entry carrying it.
pub open spec fn spec_cache_lookup(entries: Seq<(String, UserData)>, key: Seq<char>) -> Option<
    UserData,
>
    decreases entries.len(),
{
    if entries.len() == 0 {
        None
    } else if entries.last().0@ == key {
        Some(entries.last().1)
    } else {
        spec_cache_lookup(entries.drop_last(), key)
    }
}

impl AuthorCache {
    /// An empty cache.
    pub fn new() -> (c: AuthorCache)
        ensures
            c.entries@ == Seq::<(String, UserData)>::empty(),
    {
        AuthorCache { entries: Vec::new() }
    }

    /// Caches a resolved profile under the author's key, superseding any
    /// earlier entry for it.
    pub fn store(&mut self, npub: String, user: UserData)
        ensures
            final(self).entries@ == old(self).entries@.push((npub, user)),
    {
        self.entries.push((npub, user));
    }

    /// The cached profile for `key`, if one has been stored.
    pub fn lookup(&self, npub: &String) -> (r: Option<UserData>)
        ensures
            match r {
                Some(u) => spec_cache_lookup(self.entries@, npub@) == Some(u),
                None => spec_cache_lookup(self.entries@, npub@) is None,
            },
    {
        let mut i: usize = self.entries.len();
        proof {
            assert(self.entries@.take(i as int) =~= self.entries@);
        }
        while i > 0
            invariant
                i <= self.entries@.len(),
                spec_cache_lookup(self.entries@, npub@) == spec_cache_lookup(
                    self.entries@.take(i as int),
                    npub@,
                ),
            decreases i,
        {
            proof {
                assert(self.entries@.take(i as int).last() == self.entries@[i - 1]);
                assert(self.entries@.take(i as int).drop_last() =~= self.entries@.take(i - 1));
            }
            if self.entries[i - 1].0.eq(npub) {
                return Some(self.entries[i - 1].1.clone());
            }
            i = i - 1;
        }
        proof {
            assert(self.entries@.take(0) =~= Seq::<(String, UserData)>::empty());
        }
        None
    }
}

} // verus!
