//! Parsing of the backend-discovery response. The external directory answers
//! a lookup with one line of text: a first field to discard, then one field
//! per backend, separated by commas; the first kept field may carry a `:[`
//! list marker whose prefix is discarded too; within each field the backend's
//! address stands between the first pair of double quotes. The functions here
//! turn such a line into the backend list, and report exactly which lines
//! they accept: every kept field must contain a quote, and the line must
//! contain a comma.
use crate::syncer::{Backend, BackendView};
use vstd::prelude::*;

verus! {

/// Index of the first occurrence of `c` in `s`.
pub open spec fn find_char(s: Seq<char>, c: char) -> Option<int>
    decreases s.len(),
{
    if s.len() == 0 {
        None
    } else if s[0] == c {
        Some(0int)
    } else {
        match find_char(s.drop_first(), c) {
            None => None,
            Some(i) => Some(i + 1),
        }
    }
}

/// Index of the first occurrence of the list marker `:[` in `s`.
pub open spec fn find_mark(s: Seq<char>) -> Option<int>
    decreases s.len(),
{
    if s.len() < 2 {
        None
    } else if s[0] == ':' && s[1] == '[' {
        Some(0int)
    } else {
        match find_mark(s.drop_first()) {
            None => None,
            Some(i) => Some(i + 1),
        }
    }
}

/// `find_char` finds the first occurrence, or there is none.
proof fn lemma_find_char(s: Seq<char>, c: char)
    ensures
        match find_char(s, c) {
            None => forall|j: int| 0 <= j < s.len() ==> s[j] != c,
            Some(i) => 0 <= i < s.len() && s[i] == c && forall|j: int| 0 <= j < i ==> s[j] != c,
        },
    decreases s.len(),
{
    if s.len() > 0 && s[0] != c {
        let rest = s.drop_first();
        lemma_find_char(rest, c);
        assert(forall|j: int| 0 <= j < rest.len() ==> #[trigger] rest[j] == s[j + 1]);
        match find_char(rest, c) {
            None => {
                assert forall|j: int| 0 <= j < s.len() implies s[j] != c by {
                    if j > 0 {
                        assert(rest[j - 1] == s[j]);
                    }
                }
            },
            Some(i) => {
                assert(rest[i] == s[i + 1]);
                assert forall|j: int| 0 <= j < i + 1 implies s[j] != c by {
                    if j > 0 {
                        assert(rest[j - 1] == s[j]);
                    }
                }
            },
        }
    }
}

/// An occurrence at `i` with none before it makes `find_char` return `i`.
proof fn lemma_find_char_at(s: Seq<char>, c: char, i: int)
    requires
        0 <= i < s.len(),
        s[i] == c,
        forall|j: int| 0 <= j < i ==> s[j] != c,
    ensures
        find_char(s, c) == Some(i),
    decreases i,
{
    if i > 0 {
        let rest = s.drop_first();
        assert(forall|j: int| 0 <= j < i - 1 ==> rest[j] == s[j + 1]);
        lemma_find_char_at(rest, c, i - 1);
    }
}

/// `find_mark` finds the first occurrence of the marker, or there is none.
proof fn lemma_find_mark(s: Seq<char>)
    ensures
        match find_mark(s) {
            None => forall|j: int| 0 <= j < s.len() - 1 ==> !((#[trigger] s[j]) == ':' && s[j + 1] == '['),
            Some(i) => 0 <= i < s.len() - 1 && s[i] == ':' && s[i + 1] == '[' && forall|j: int|
                0 <= j < i ==> !((#[trigger] s[j]) == ':' && s[j + 1] == '['),
        },
    decreases s.len(),
{
    if s.len() >= 2 && !(s[0] == ':' && s[1] == '[') {
        let rest = s.drop_first();
        lemma_find_mark(rest);
        assert(forall|j: int| 0 <= j < rest.len() ==> #[trigger] rest[j] == s[j + 1]);
        match find_mark(rest) {
            None => {
                assert forall|j: int| 0 <= j < s.len() - 1 implies !((#[trigger] s[j]) == ':'
                    && s[j + 1] == '[') by {
                    if j > 0 {
                        assert(rest[j - 1] == s[j]);
                        assert(rest[j] == s[j + 1]);
                        assert(!(rest[j - 1] == ':' && rest[j] == '['));
                    }
                }
            },
            Some(i) => {
                assert(rest[i] == s[i + 1]);
                assert(rest[i + 1] == s[i + 2]);
                assert forall|j: int| 0 <= j < i + 1 implies !((#[trigger] s[j]) == ':' && s[j + 1]
                    == '[') by {
                    if j > 0 {
                        assert(rest[j - 1] == s[j]);
                        assert(rest[j] == s[j + 1]);
                        assert(!(rest[j - 1] == ':' && rest[j] == '['));
                    }
                }
            },
        }
    }
}

/// A marker at `i` with none before it makes `find_mark` return `i`.
proof fn lemma_find_mark_at(s: Seq<char>, i: int)
    requires
        0 <= i < s.len() - 1,
        s[i] == ':' && s[i + 1] == '[',
        forall|j: int| 0 <= j < i ==> !((#[trigger] s[j]) == ':' && s[j + 1] == '['),
    ensures
        find_mark(s) == Some(i),
    decreases i,
{
    if i > 0 {
        let rest = s.drop_first();
        assert(forall|j: int| 0 <= j < rest.len() ==> #[trigger] rest[j] == s[j + 1]);
        assert forall|j: int| 0 <= j < i - 1 implies !((#[trigger] rest[j]) == ':' && rest[j + 1]
            == '[') by {
            assert(rest[j] == s[j + 1]);
            assert(rest[j + 1] == s[j + 2]);
            assert(!(s[j + 1] == ':' && s[j + 2] == '['));
        }
        lemma_find_mark_at(rest, i - 1);
    }
}

/// The comma-separated fields of `s`: always at least one, the separators
/// consumed.
pub open spec fn segments(s: Seq<char>) -> Seq<Seq<char>>
    decreases s.len(),
    via segments_decreases
{
    match find_char(s, ',') {
        None => seq![s],
        Some(i) => seq![s.take(i)] + segments(s.skip(i + 1)),
    }
}

#[via_fn]
proof fn segments_decreases(s: Seq<char>) {
    lemma_find_char(s, ',');
}

/// A field trimmed of a leading list marker: the part of the field between
/// its first `:[` and the next one or the end; a field with no marker is
/// kept whole.
pub open spec fn strip_head(seg: Seq<char>) -> Seq<char> {
    match find_mark(seg) {
        None => seg,
        Some(i) => {
            let after = seg.skip(i + 2);
            match find_mark(after) {
                None => after,
                Some(j) => after.take(j),
            }
        },
    }
}

/// Whether a field carries a quoted address at all.
pub open spec fn seg_has_ip(seg: Seq<char>) -> bool {
    find_char(seg, '"') is Some
}

/// The address a field carries: the text between its first double quote and
/// the next one, or the rest of the field if no second quote follows.
pub open spec fn seg_ip(seg: Seq<char>) -> Seq<char>
    recommends
        seg_has_ip(seg),
{
    match find_char(seg, '"') {
        None => seg,
        Some(q1) => {
            let rest = seg.skip(q1 + 1);
            match find_char(rest, '"') {
                None => rest,
                Some(q2) => rest.take(q2),
            }
        },
    }
}

/// A field as kept: the head field of the response's tail is trimmed of its
/// list marker, every other field stands as it is.
pub open spec fn seg_trimmed(seg: Seq<char>, strip: bool) -> Seq<char> {
    if strip {
        strip_head(seg)
    } else {
        seg
    }
}

/// Whether every field of `s` (the head one trimmed when `first` holds)
/// carries a quoted address.
pub open spec fn fields_ok(s: Seq<char>, first: bool) -> bool {
    forall|k: int|
        0 <= k < segments(s).len() ==> seg_has_ip(
            seg_trimmed(#[trigger] segments(s)[k], first && k == 0),
        )
}

/// The addresses carried by the fields of `s`, in field order.
pub open spec fn fields_ips(s: Seq<char>, first: bool) -> Seq<Seq<char>> {
    segments(s).map(|k: int, seg: Seq<char>| seg_ip(seg_trimmed(seg, first && k == 0)))
}

/// Whether a whole response line is accepted: it has at least two fields,
/// and every field after the first carries a quoted address once the head
/// of the tail is trimmed.
pub open spec fn response_parseable(body: Seq<char>) -> bool {
    &&& segments(body).len() >= 2
    &&& fields_ok_from_second(body)
}

/// The acceptance condition on the fields after the first.
pub open spec fn fields_ok_from_second(body: Seq<char>) -> bool {
    forall|k: int|
        1 <= k < segments(body).len() ==> seg_has_ip(
            seg_trimmed(#[trigger] segments(body)[k], k == 1),
        )
}

/// The backend records an accepted response line denotes: one fresh backend
/// per field after the first, carrying the field's quoted address.
pub open spec fn response_backends(body: Seq<char>) -> Seq<BackendView> {
    segments(body).drop_first().map(
        |k: int, seg: Seq<char>|
            BackendView {
                ip: seg_ip(seg_trimmed(seg, k == 0)),
                reqs: 0,
                count: 0,
                rtt: 0,
                rtt_mean: 0,
            },
    )
}

/// First occurrence of `c` in `s`, executably.
fn find_char_in(s: &str, c: char) -> (r: Option<usize>)
    ensures
        match r {
            None => find_char(s@, c) is None,
            Some(i) => find_char(s@, c) == Some(i as int),
        },
{
    let n = s.unicode_len();
    let mut i: usize = 0;
    while i < n
        invariant
            n == s@.len(),
            0 <= i <= n,
            forall|j: int| 0 <= j < i ==> s@[j] != c,
        decreases n - i,
    {
        if s.get_char(i) == c {
            proof {
                lemma_find_char_at(s@, c, i as int);
            }
            return Some(i);
        }
        i = i + 1;
    }
    proof {
        lemma_find_char(s@, c);
    }
    None
}

/// First occurrence of the list marker `:[` in `s`, executably.
fn find_mark_in(s: &str) -> (r: Option<usize>)
    ensures
        match r {
            None => find_mark(s@) is None,
            Some(i) => find_mark(s@) == Some(i as int) && i + 2 <= s@.len(),
        },
{
    let n = s.unicode_len();
    if n < 2 {
        proof {
            lemma_find_mark(s@);
        }
        return None;
    }
    let mut i: usize = 0;
    while i < n - 1
        invariant
            n == s@.len(),
            2 <= n,
            0 <= i <= n - 1,
            forall|j: int| 0 <= j < i ==> !((#[trigger] s@[j]) == ':' && s@[j + 1] == '['),
        decreases n - i,
    {
        if s.get_char(i) == ':' && s.get_char(i + 1) == '[' {
            proof {
                lemma_find_mark_at(s@, i as int);
            }
            return Some(i);
        }
        i = i + 1;
    }
    proof {
        lemma_find_mark(s@);
    }
    None
}

/// The quoted address of one field, trimmed of its list marker when `first`
/// holds: `None` exactly when the kept field carries no quote.
fn extract_ip(seg: &str, first: bool) -> (r: Option<String>)
    ensures
        r is Some <==> seg_has_ip(seg_trimmed(seg@, first)),
        match r {
            Some(ip) => ip@ == seg_ip(seg_trimmed(seg@, first)),
            None => true,
        },
{
    let trimmed: &str = if first {
        match find_mark_in(seg) {
            None => seg,
            Some(i) => {
                let seg_len = seg.unicode_len();
                let after = seg.substring_char(i + 2, seg_len);
                proof {
                    assert(after@ =~= seg@.skip(i + 2));
                }
                match find_mark_in(after) {
                    None => after,
                    Some(j) => {
                        proof {
                            lemma_find_mark(after@);
                        }
                        let cut = after.substring_char(0, j);
                        proof {
                            assert(cut@ =~= after@.take(j as int));
                        }
                        cut
                    },
                }
            },
        }
    } else {
        seg
    };
    assert(trimmed@ == seg_trimmed(seg@, first));
    match find_char_in(trimmed, '"') {
        None => None,
        Some(q1) => {
            proof {
                lemma_find_char(trimmed@, '"');
            }
            let trimmed_len = trimmed.unicode_len();
            let rest = trimmed.substring_char(q1 + 1, trimmed_len);
            proof {
                assert(rest@ =~= trimmed@.skip(q1 + 1));
            }
            let ip: &str = match find_char_in(rest, '"') {
                None => rest,
                Some(q2) => {
                    proof {
                        lemma_find_char(rest@, '"');
                    }
                    let cut = rest.substring_char(0, q2);
                    proof {
                        assert(cut@ =~= rest@.take(q2 as int));
                    }
                    cut
                },
            };
            Some(ip.to_owned())
        },
    }
}

/// The addresses of all fields of `s`, the head field trimmed when `first`
/// holds: `None` exactly when some kept field carries no quote.
fn parse_fields(s: &str, first: bool) -> (r: Option<Vec<String>>)
    ensures
        r is Some <==> fields_ok(s@, first),
        match r {
            Some(ips) => ips@.map_values(|ip: String| ip@) == fields_ips(s@, first),
            None => true,
        },
    decreases s@.len(),
{
    match find_char_in(s, ',') {
        None => {
            proof {
                assert(segments(s@) == seq![s@]);
            }
            match extract_ip(s, first) {
                None => {
                    assert(!fields_ok(s@, first)) by {
                        assert(segments(s@)[0] == s@);
                    }
                    None
                },
                Some(ip) => {
                    let mut ips: Vec<String> = Vec::new();
                    ips.push(ip);
                    proof {
                        assert(segments(s@)[0] == s@);
                        assert(ips@.map_values(|x: String| x@) =~= fields_ips(s@, first));
                    }
                    Some(ips)
                },
            }
        },
        Some(i) => {
            proof {
                lemma_find_char(s@, ',');
            }
            let s_len = s.unicode_len();
            let head = s.substring_char(0, i);
            let tail = s.substring_char(i + 1, s_len);
            proof {
                assert(head@ =~= s@.take(i as int));
                assert(tail@ =~= s@.skip(i + 1));
                assert(segments(s@) == seq![s@.take(i as int)] + segments(s@.skip(i + 1)));
            }
            let ghost segs = segments(s@);
            let ghost segs_tail = segments(tail@);
            match extract_ip(head, first) {
                None => {
                    assert(!fields_ok(s@, first)) by {
                        assert(segs[0] == head@);
                    }
                    None
                },
                Some(ip) => {
                    match parse_fields(tail, false) {
                        None => {
                            assert(!fields_ok(s@, first)) by {
                                let bad = choose|k: int|
                                    0 <= k < segs_tail.len() && !seg_has_ip(
                                        seg_trimmed(#[trigger] segs_tail[k], false),
                                    );
                                assert(!seg_has_ip(seg_trimmed(segs_tail[bad], false)));
                                assert(segs[bad + 1] == segs_tail[bad]);
                                assert(!seg_has_ip(
                                    seg_trimmed(segs[bad + 1], first && bad + 1 == 0),
                                ));
                            }
                            None
                        },
                        Some(mut rest) => {
                            let ghost rest_pre = rest@;
                            rest.insert(0, ip);
                            proof {
                                assert(rest@ =~= seq![ip] + rest_pre);
                                assert(fields_ok(s@, first)) by {
                                    assert forall|k: int| 0 <= k < segs.len() implies seg_has_ip(
                                        seg_trimmed(#[trigger] segs[k], first && k == 0),
                                    ) by {
                                        if k == 0 {
                                            assert(segs[0] == head@);
                                        } else {
                                            assert(segs[k] == segs_tail[k - 1]);
                                            assert(seg_has_ip(
                                                seg_trimmed(segs_tail[k - 1], false),
                                            ));
                                        }
                                    }
                                }
                                assert(rest@.map_values(|x: String| x@) =~= fields_ips(
                                    s@,
                                    first,
                                )) by {
                                    let lhs = rest@.map_values(|x: String| x@);
                                    let rhs = fields_ips(s@, first);
                                    let sub = rest_pre.map_values(|x: String| x@);
                                    assert(sub == fields_ips(tail@, false));
                                    assert(lhs.len() == rest@.len());
                                    assert(rest@.len() == 1 + rest_pre.len());
                                    assert(sub.len() == rest_pre.len());
                                    assert(sub.len() == segs_tail.len());
                                    assert(rhs.len() == segs.len());
                                    assert(segs.len() == 1 + segs_tail.len());
                                    assert(lhs.len() == rhs.len());
                                    assert forall|k: int| 0 <= k < lhs.len() implies lhs[k]
                                        == rhs[k] by {
                                        if k == 0 {
                                            assert(segs[0] == head@);
                                            assert(rest@[0] == ip);
                                        } else {
                                            assert(rest@[k] == rest_pre[k - 1]);
                                            assert(sub[k - 1] == fields_ips(tail@, false)[k - 1]);
                                            assert(segs[k] == segs_tail[k - 1]);
                                        }
                                    }
                                }
                            }
                            Some(rest)
                        },
                    }
                },
            }
        },
    }
}

/// The backend list an accepted discovery response denotes, or `None` for a
/// rejected line: the line must contain a comma, and every field after the
/// first must carry a quoted address once the head field is trimmed of its
/// list marker. Each address becomes one fresh backend, in field order.
pub fn parse_backends(body: &str) -> (r: Option<Vec<Backend>>)
    ensures
        r is Some <==> response_parseable(body@),
        match r {
            Some(backends) => backends@.map_values(|b: Backend| b@) == response_backends(body@),
            None => true,
        },
{
    match find_char_in(body, ',') {
        None => {
            proof {
                assert(segments(body@) == seq![body@]);
            }
            None
        },
        Some(i) => {
            proof {
                lemma_find_char(body@, ',');
            }
            let body_len = body.unicode_len();
            let tail = body.substring_char(i + 1, body_len);
            proof {
                assert(tail@ =~= body@.skip(i + 1));
                assert(segments(body@) == seq![body@.take(i as int)] + segments(body@.skip(i + 1)));
            }
            let ghost segs = segments(body@);
            let ghost segs_tail = segments(tail@);
            proof {
                assert(segs.drop_first() =~= segs_tail);
                assert(fields_ok_from_second(body@) <==> fields_ok(tail@, true)) by {
                    if fields_ok(tail@, true) {
                        assert forall|k: int| 1 <= k < segs.len() implies seg_has_ip(
                            seg_trimmed(#[trigger] segs[k], k == 1),
                        ) by {
                            assert(segs[k] == segs_tail[k - 1]);
                            assert(seg_has_ip(seg_trimmed(segs_tail[k - 1], k - 1 == 0)));
                        }
                    }
                    if fields_ok_from_second(body@) {
                        assert forall|k: int| 0 <= k < segs_tail.len() implies seg_has_ip(
                            seg_trimmed(#[trigger] segs_tail[k], true && k == 0),
                        ) by {
                            assert(segs[k + 1] == segs_tail[k]);
                            assert(seg_has_ip(seg_trimmed(segs[k + 1], k + 1 == 1)));
                        }
                    }
                }
            }
            match parse_fields(tail, true) {
                None => None,
                Some(ips) => {
                    let mut backends: Vec<Backend> = Vec::new();
                    let n = ips.len();
                    let mut k: usize = 0;
                    while k < n
                        invariant
                            n == ips@.len(),
                            0 <= k <= n,
                            ips@.map_values(|ip: String| ip@) == fields_ips(tail@, true),
                            backends@.len() == k,
                            forall|j: int|
                                0 <= j < k ==> (#[trigger] backends@[j])@ == (BackendView {
                                    ip: ips@[j]@,
                                    reqs: 0,
                                    count: 0,
                                    rtt: 0,
                                    rtt_mean: 0,
                                }),
                        decreases n - k,
                    {
                        let b = Backend::new(ips[k].as_str());
                        backends.push(b);
                        k = k + 1;
                    }
                    proof {
                        assert(backends@.map_values(|b: Backend| b@) =~= response_backends(
                            body@,
                        )) by {
                            let lhs = backends@.map_values(|b: Backend| b@);
                            let rhs = response_backends(body@);
                            let mid = fields_ips(tail@, true);
                            assert(ips@.map_values(|ip: String| ip@).len() == ips@.len());
                            assert(mid.len() == segs_tail.len());
                            assert(lhs.len() == backends@.len());
                            assert(rhs.len() == segs.drop_first().len());
                            assert(segs.drop_first().len() == segs_tail.len());
                            assert(lhs.len() == rhs.len());
                            assert forall|j: int| 0 <= j < lhs.len() implies lhs[j] == rhs[j] by {
                                assert(lhs[j] == backends@[j]@);
                                assert(ips@.map_values(|ip: String| ip@)[j] == ips@[j]@);
                                assert(mid[j] == seg_ip(seg_trimmed(segs_tail[j], j == 0)));
                                assert(segs.drop_first()[j] == segs_tail[j]);
                            }
                        }
                    }
                    Some(backends)
                },
            }
        },
    }
}

} // verus!
