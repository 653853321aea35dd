//! Bluesky identifiers: browseable post links and `at://` URI parts.

use vstd::prelude::*;

use crate::created_at::{
    captures_at, created_at_defined, decimal_digit, find_offset, first_match_from, fraction_end_at,
    head_matches, parse_digit_range, spec_parse_created_at, time_pos, error_for, date_fields, CreatedAtError, ReadFailure,
};
use crate::datetime::UtcDateTime;
use crate::text::{chars_of, string_from_chars};

verus! {

/// The characters of `"https://bsky.app/profile/"`.
pub open spec fn profile_prefix() -> Seq<char> {
    seq!['h', 't', 't', 'p', 's', ':', '/', '/', 'b', 's', 'k', 'y', '.', 'a', 'p', 'p', '/',
        'p', 'r', 'o', 'f', 'i', 'l', 'e', '/']
}

/// The characters of `"/post/"`.
pub open spec fn post_infix() -> Seq<char> {
    seq!['/', 'p', 'o', 's', 't', '/']
}

/// The link under which the Bluesky web app shows a post.
pub open spec fn browseable_url(handle: Seq<char>, rkey: Seq<char>) -> Seq<char> {
    profile_prefix() + handle + post_infix() + rkey
}

/// `https://bsky.app/profile/{handle}/post/{rkey}`.
pub fn bluesky_browseable_url(handle: &str, rkey: &str) -> (url: String)
    ensures
        url@ == browseable_url(handle@, rkey@),
{
    let mut url = String::from_str("https://bsky.app/profile/");
    proof {
        reveal_strlit("https://bsky.app/profile/");
        reveal_strlit("/post/");
    }
    url.append(handle);
    url.append("/post/");
    url.append(rkey);
    url
}

/// The pieces of `s` between the occurrences of `sep`, as `str::split` yields them:
/// one more piece than there are separators.
pub open spec fn split_on(s: Seq<char>, sep: char) -> Seq<Seq<char>>
    decreases s.len(),
{
    if s.len() == 0 {
        seq![Seq::<char>::empty()]
    } else {
        let rest = split_on(s.drop_last(), sep);
        if s.last() == sep {
            rest.push(Seq::<char>::empty())
        } else {
            rest.update(rest.len() - 1, rest.last().push(s.last()))
        }
    }
}

proof fn lemma_split_on_nonempty(s: Seq<char>, sep: char)
    ensures
        split_on(s, sep).len() >= 1,
    decreases s.len(),
{
    if s.len() > 0 {
        lemma_split_on_nonempty(s.drop_last(), sep);
    }
}

/// The handle (third piece) and record key (fifth piece) of an `at://` URI split on `/`,
/// or `None` when the URI has fewer than five pieces.
pub open spec fn uri_parts(uri: Seq<char>) -> Option<(Seq<char>, Seq<char>)> {
    let parts = split_on(uri, '/');
    if parts.len() < 5 {
        None
    } else {
        Some((parts[2], parts[4]))
    }
}

/// The character sequences held by a sequence of character vectors.
pub open spec fn char_vecs_view(v: Seq<Vec<char>>) -> Seq<Seq<char>> {
    v.map_values(|x: Vec<char>| x@)
}

/// Splits `uri` on `/` into the pieces of `split_on`.
fn split_slash(uri: &str) -> (parts: Vec<Vec<char>>)
    ensures
        char_vecs_view(parts@) == split_on(uri@, '/'),
{
    let chars = chars_of(uri);
    let mut done: Vec<Vec<char>> = Vec::new();
    let mut cur: Vec<char> = Vec::new();
    let mut i: usize = 0;
    while i < chars.len()
        invariant
            chars@ == uri@,
            i <= chars.len(),
            char_vecs_view(done@).push(cur@) == split_on(chars@.subrange(0, i as int), '/'),
        decreases chars.len() - i,
    {
        let c = chars[i];
        let ghost prefix = chars@.subrange(0, i as int);
        let ghost before_done = char_vecs_view(done@);
        let ghost before_cur = cur@;
        assert(chars@.subrange(0, i + 1).drop_last() == prefix);
        assert(chars@.subrange(0, i + 1).last() == c);
        if c == '/' {
            done.push(cur);
            cur = Vec::new();
            assert(char_vecs_view(done@) =~= before_done.push(before_cur));
            assert(char_vecs_view(done@).push(cur@) =~= before_done.push(before_cur).push(Seq::<char>::empty()));
        } else {
            cur.push(c);
            assert(char_vecs_view(done@) == before_done);
            assert(char_vecs_view(done@).push(cur@) =~= before_done.push(before_cur).update(
                before_done.len() as int, before_cur.push(c)));
        }
        i = i + 1;
    }
    assert(chars@.subrange(0, chars.len() as int) == chars@);
    let ghost before_done = char_vecs_view(done@);
    let ghost before_cur = cur@;
    done.push(cur);
    assert(char_vecs_view(done@) =~= before_done.push(before_cur));
    done
}

/// The handle and record key of an `at://did/collection/rkey` URI: the third and fifth
/// pieces of the URI split on `/`, or `None` when there are fewer than five pieces.
pub fn parse_uri(uri: &str) -> (r: Option<(String, String)>)
    ensures
        r matches Some((h, k)) ==> uri_parts(uri@) == Some((h@, k@)),
        r is None <==> uri_parts(uri@) is None,
{
    let parts = split_slash(uri);
    if parts.len() < 5 {
        return None;
    }
    let handle = string_from_chars(&parts[2]);
    let rkey = string_from_chars(&parts[4]);
    Some((handle, rkey))
}

/// Reads a `createdAt` timestamp as `parse_created_at` does, and gives `None` exactly on
/// the texts where that reading panics (a matched date that does not exist, or an offset
/// that overflows or leaves chrono's range).
pub fn parse_created_at_checked(time: &str) -> (r: Option<Result<UtcDateTime, CreatedAtError>>)
    ensures
        r is None <==> !created_at_defined(time@),
        r matches Some(x) ==> match spec_parse_created_at(time@) {
            Ok(t) => x matches Ok(dt) && dt@ == (t, 0int),
            Err(f) => x matches Err(e) && error_for(e, f, time@),
        },
{
    let v = chars_of(time);
    let n = v.len();
    let mut i: usize = 0;
    while i < n && !head_matches(&v, i)
        invariant
            i <= n == v@.len(),
            v@ == time@,
            first_match_from(v@, 0) == first_match_from(v@, i as int),
        decreases n - i,
    {
        i = i + 1;
    }
    if i == n {
        return Some(Err(CreatedAtError::from_failure(ReadFailure::NoMatch, time)));
    }
    let ghost s = v@;
    assert(first_match_from(s, 0) == Some(i as int));
    let dl: usize = if decimal_digit(v[i + 9]) { 2 } else { 1 };
    let t = i + 8 + dl;
    assert(t == time_pos(s, i as int));
    let ghost c = captures_at(s, i as int);
    let year = match parse_digit_range(&v, i, i + 4, 2147483647) {
        Ok(x) => x,
        Err(f) => {
            return Some(Err(CreatedAtError::from_failure(f, time)));
        },
    };
    let month = match parse_digit_range(&v, i + 5, i + 7, 4294967295) {
        Ok(x) => x,
        Err(f) => {
            return Some(Err(CreatedAtError::from_failure(f, time)));
        },
    };
    let day = match parse_digit_range(&v, i + 8, t, 4294967295) {
        Ok(x) => x,
        Err(f) => {
            return Some(Err(CreatedAtError::from_failure(f, time)));
        },
    };
    let hour = match parse_digit_range(&v, t + 1, t + 3, 4294967295) {
        Ok(x) => x,
        Err(f) => {
            return Some(Err(CreatedAtError::from_failure(f, time)));
        },
    };
    let minute = match parse_digit_range(&v, t + 4, t + 6, 4294967295) {
        Ok(x) => x,
        Err(f) => {
            return Some(Err(CreatedAtError::from_failure(f, time)));
        },
    };
    let second = match parse_digit_range(&v, t + 7, t + 9, 4294967295) {
        Ok(x) => x,
        Err(f) => {
            return Some(Err(CreatedAtError::from_failure(f, time)));
        },
    };
    assert(date_fields(c) == Ok::<(int, int, int, int, int, int), ReadFailure>(
        (year as int, month as int, day as int, hour as int, minute as int, second as int),
    ));
    let dt = match UtcDateTime::from_ymd_hms(year as i32, month as u32, day as u32, hour as u32, minute as u32, second as u32) {
        Some(dt) => dt,
        None => {
            return None;
        },
    };
    let f = fraction_end_at(&v, t + 9);
    match find_offset(&v, f) {
        None => Some(Ok(dt)),
        Some((plus, a, b)) => {
            let h = match parse_digit_range(&v, f + 1, a, 9223372036854775807) {
                Ok(x) => x,
                Err(e) => {
                    return Some(Err(CreatedAtError::from_failure(e, time)));
                },
            };
            let m = match parse_digit_range(&v, a + 1, b, 9223372036854775807) {
                Ok(x) => x,
                Err(e) => {
                    return Some(Err(CreatedAtError::from_failure(e, time)));
                },
            };
            if h > 2562047788015 || m > 153722867280912 {
                return None;
            }
            let total: u64 = h * 3600 + m * 60;
            if total > 9223372036854775 {
                return None;
            }
            let x: i64 = if plus { -(total as i64) } else { total as i64 };
            let secs = dt.timestamp() + x;
            match UtcDateTime::from_timestamp(secs, 0) {
                Some(r) => Some(Ok(r)),
                None => None,
            }
        },
    }
}

/// Reads a Bluesky `createdAt` timestamp such as `2024-12-07T05:48:21.260Z`,
/// `2024-12-07T05:48:07+00:00` or `2024-12-04T10:54:13-06:00` as a UTC date-time. Fractions
/// of a second are dropped; an offset is subtracted to reach UTC.
pub fn parse_created_at(time: &str) -> (r: Result<UtcDateTime, CreatedAtError>)
    requires
        created_at_defined(time@),
    ensures
        match spec_parse_created_at(time@) {
            Ok(t) => r matches Ok(dt) && dt@ == (t, 0int),
            Err(f) => r matches Err(e) && error_for(e, f, time@),
        },
{
    match parse_created_at_checked(time) {
        Some(r) => r,
        None => Err(CreatedAtError::from_failure(ReadFailure::NoMatch, time)),
    }
}

/// Appending characters other than the separator extends the last piece.
proof fn lemma_split_on_extend_last(s: Seq<char>, t: Seq<char>, sep: char)
    requires
        !t.contains(sep),
    ensures
        split_on(s + t, sep) == split_on(s, sep).update(
            split_on(s, sep).len() - 1,
            split_on(s, sep).last() + t,
        ),
    decreases t.len(),
{
    lemma_split_on_nonempty(s, sep);
    if t.len() == 0 {
        assert(s + t == s);
        assert(split_on(s, sep).last() + t == split_on(s, sep).last());
        assert(split_on(s, sep).update(split_on(s, sep).len() - 1, split_on(s, sep).last())
            =~= split_on(s, sep));
    } else {
        let t2 = t.drop_last();
        assert(!t2.contains(sep)) by {
            if t2.contains(sep) {
                let k = choose|k: int| 0 <= k < t2.len() && t2[k] == sep;
                assert(t[k] == sep);
            }
        }
        assert(t.last() != sep) by {
            assert(t[t.len() - 1] == t.last());
        }
        lemma_split_on_extend_last(s, t2, sep);
        assert((s + t).drop_last() == s + t2);
        assert((s + t).last() == t.last());
        lemma_split_on_nonempty(s + t2, sep);
        let r = split_on(s, sep);
        assert(split_on(s + t, sep) =~= r.update(r.len() - 1, r.last() + t2).update(
            r.len() - 1,
            (r.last() + t2).push(t.last()),
        ));
        assert((r.last() + t2).push(t.last()) =~= r.last() + t);
    }
}

/// The characters of `at://{did}/{collection}/{rkey}`.
pub open spec fn at_uri(did: Seq<char>, collection: Seq<char>, rkey: Seq<char>) -> Seq<char> {
    seq!['a', 't', ':', '/', '/'] + did + seq!['/'] + collection + seq!['/'] + rkey
}

/// Reading an `at://` URI gives back its DID and record key, when none of its three
/// parts holds a `/`.
pub proof fn lemma_parse_uri_of_at_uri(did: Seq<char>, collection: Seq<char>, rkey: Seq<char>)
    requires
        !did.contains('/'),
        !collection.contains('/'),
        !rkey.contains('/'),
    ensures
        uri_parts(at_uri(did, collection, rkey)) == Some((did, rkey)),
{
    let e = Seq::<char>::empty();
    let p0 = seq!['a', 't', ':'];
    assert(!p0.contains('/')) by {
        if p0.contains('/') {
            let k = choose|k: int| 0 <= k < p0.len() && p0[k] == '/';
        }
    }
    lemma_split_on_extend_last(e, p0, '/');
    assert(e + p0 == p0);
    assert(split_on(p0, '/') =~= seq![p0]);
    let s1 = p0.push('/');
    assert(s1.drop_last() == p0);
    assert(s1.last() == '/');
    assert(split_on(s1, '/') =~= seq![p0, e]);
    let s2 = s1.push('/');
    assert(s2.drop_last() == s1);
    assert(split_on(s2, '/') =~= seq![p0, e, e]);
    lemma_split_on_extend_last(s2, did, '/');
    let s3 = s2 + did;
    assert(split_on(s3, '/') =~= seq![p0, e, did]);
    let s4 = s3.push('/');
    assert(s4.drop_last() == s3);
    assert(split_on(s4, '/') =~= seq![p0, e, did, e]);
    lemma_split_on_extend_last(s4, collection, '/');
    let s5 = s4 + collection;
    assert(split_on(s5, '/') =~= seq![p0, e, did, collection]);
    let s6 = s5.push('/');
    assert(s6.drop_last() == s5);
    assert(split_on(s6, '/') =~= seq![p0, e, did, collection, e]);
    lemma_split_on_extend_last(s6, rkey, '/');
    let s7 = s6 + rkey;
    assert(split_on(s7, '/') =~= seq![p0, e, did, collection, rkey]);
    assert(s7 =~= at_uri(did, collection, rkey));
}

/// A post's link is the profile address of its author followed by `/post/` and the whole
/// record key: it starts with `https://bsky.app/profile/` and the handle, ends with the
/// record key, and holds nothing else than `/post/` between them.
pub proof fn lemma_browseable_url_parts(handle: Seq<char>, rkey: Seq<char>)
    ensures
        browseable_url(handle, rkey) == "https://bsky.app/profile/"@ + handle + "/post/"@ + rkey,
        browseable_url(handle, rkey).len() == 31 + handle.len() + rkey.len(),
        browseable_url(handle, rkey).subrange(0, 25 + handle.len() as int) == "https://bsky.app/profile/"@ + handle,
        browseable_url(handle, rkey).subrange(
            browseable_url(handle, rkey).len() - rkey.len(),
            browseable_url(handle, rkey).len() as int,
        ) == rkey,
{
    reveal_strlit("https://bsky.app/profile/");
    reveal_strlit("/post/");
    let u = browseable_url(handle, rkey);
    assert(profile_prefix() =~= "https://bsky.app/profile/"@);
    assert(post_infix() =~= "/post/"@);
    assert(u.subrange(0, 25 + handle.len() as int) =~= "https://bsky.app/profile/"@ + handle);
    assert(u.subrange(u.len() - rkey.len(), u.len() as int) =~= rkey);
}

} // verus!
