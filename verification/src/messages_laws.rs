//! What holds of requests to an upstream, and of what is told of its failures.
use crate::config::ConfigV;
use crate::json::JsonV;
use crate::messages::{
    asks_beta, ends_token, failure_line, is_sensitive, marker_place, query_with_beta, redacted_after, safe_entries,
    timeouts_before, token_length, without_beta, ErrorV, REDACTED,
};
use crate::text::{lower, lowered, stands_at};
use vstd::prelude::*;

verus! {

/// What may follow a marker: the end of its token, or the word that stands for what is not told.
pub open spec fn untold_from(s: Seq<char>, at: int) -> bool {
    at >= s.len() || ends_token(s[at]) || REDACTED@.is_prefix_of(s.skip(at))
}

/// Whether a marker can be looked for: it does not overlap itself, and does not start inside the word
/// that stands for what is not told.
pub open spec fn plain_marker(marker: Seq<char>) -> bool {
    &&& marker.len() > 0
    &&& forall|k: int| 0 < k < marker.len() ==> #[trigger] marker.skip(k) != marker.take(marker.len() - k)
    &&& forall|k: int| 0 <= k < lowered(REDACTED@).len() ==> #[trigger] lowered(REDACTED@)[k] != marker[0]
}

/// The markers of credentials can be looked for.
pub proof fn credential_markers_are_plain()
    ensures
        plain_marker("bearer "@),
        plain_marker("sk-"@),
{
    reveal_strlit("bearer ");
    reveal_strlit("sk-");
    reveal_strlit("[REDACTED]");
    let b = "bearer "@;
    let s = "sk-"@;
    assert forall|k: int| 0 < k < b.len() implies #[trigger] b.skip(k) != b.take(b.len() - k) by {
        assert(b.skip(k)[0] == b[k]);
        assert(b.take(b.len() - k)[0] == 'b');
    }
    assert forall|k: int| 0 < k < s.len() implies #[trigger] s.skip(k) != s.take(s.len() - k) by {
        assert(s.skip(k)[0] == s[k]);
        assert(s.take(s.len() - k)[0] == 's');
    }
    let r = lowered(REDACTED@);
    assert(r.len() == 10);
    assert forall|k: int| 0 <= k < r.len() implies #[trigger] r[k] != 'b' && r[k] != 's' by {
        assert(r[k] == lower(REDACTED@[k]));
    }
}

proof fn first_place(s: Seq<char>, marker: Seq<char>)
    requires
        marker.len() > 0,
    ensures
        0 <= marker_place(s, marker) <= s.len(),
        marker_place(s, marker) < s.len() ==> stands_at(lowered(s), marker, marker_place(s, marker)),
        forall|i: int| 0 <= i < marker_place(s, marker) ==> !stands_at(lowered(s), marker, i),
    decreases s.len(),
{
    if s.len() > 0 && !stands_at(lowered(s), marker, 0) {
        let rest = s.drop_first();
        first_place(rest, marker);
        assert(lowered(rest) =~= lowered(s).skip(1));
        let at = marker_place(s, marker);
        assert forall|i: int| 0 <= i < at implies !stands_at(lowered(s), marker, i) by {
            if i > 0 {
                shifted(lowered(s), marker, 1, i - 1);
                assert(!stands_at(lowered(rest), marker, i - 1));
            }
        }
        if at < s.len() {
            shifted(lowered(s), marker, 1, at - 1);
        }
    }
}

proof fn shifted(s: Seq<char>, part: Seq<char>, by: int, at: int)
    requires
        0 <= by <= s.len(),
        0 <= at,
    ensures
        stands_at(s.skip(by), part, at) == stands_at(s, part, by + at),
{
    if by + at + part.len() <= s.len() {
        assert(s.skip(by).subrange(at, at + part.len()) =~= s.subrange(by + at, by + at + part.len()));
    }
}

proof fn first_char_stays(s: Seq<char>, marker: Seq<char>)
    requires
        marker.len() > 0,
    ensures
        s.len() == 0 ==> redacted_after(s, marker).len() == 0,
        s.len() > 0 ==> redacted_after(s, marker).len() > 0 && redacted_after(s, marker)[0] == s[0],
{
    first_place(s, marker);
    let at = marker_place(s, marker);
    if at + marker.len() <= s.len() {
        let head = s.take(at + marker.len());
        assert(head[0] == s[0]);
    }
}

/// Where a marker stands in a text that was made safe, what followed it is not told.
pub proof fn tokens_behind_a_marker_are_untold(s: Seq<char>, marker: Seq<char>, i: int)
    requires
        plain_marker(marker),
        stands_at(lowered(redacted_after(s, marker)), marker, i),
        0 <= i,
    ensures
        untold_from(redacted_after(s, marker), i + marker.len()),
    decreases s.len(),
{
    let out = redacted_after(s, marker);
    let m = marker.len() as int;
    first_place(s, marker);
    let at = marker_place(s, marker);
    if at + m > s.len() {
        assert(out == s);
        if at < s.len() {
            assert(stands_at(lowered(s), marker, at));
        }
        assert(i < at);
    } else {
        let head = s.take(at + m);
        let rest = s.skip(at + m);
        let n = token_length(rest);
        token_is_inside(rest);
        let after = if n <= 0 {
            redacted_after(rest, marker)
        } else {
            REDACTED@ + redacted_after(rest.skip(n), marker)
        };
        assert(out =~= head + after);
        assert(lowered(out).take(at + m) =~= lowered(s).take(at + m));
        if i < at {
            let before = lowered(s).subrange(i, i + m);
            assert forall|j: int| 0 <= j < m implies #[trigger] before[j] == lowered(out).subrange(i, i + m)[j] by {
                assert(lowered(out).take(at + m)[i + j] == lowered(s).take(at + m)[i + j]);
            }
            assert(lowered(out).subrange(i, i + m) =~= before);
            assert(stands_at(lowered(s), marker, i));
            assert(false);
        } else if i == at {
            assert(out.skip(at + m) =~= after);
            if n <= 0 {
                first_char_stays(rest, marker);
                if rest.len() > 0 {
                    assert(ends_token(rest[0]));
                    assert(out[at + m] == after[0]);
                }
            } else {
                assert(after.subrange(0, REDACTED@.len() as int) =~= REDACTED@);
            }
        } else if i < at + m {
            let k = i - at;
            let there = lowered(out).subrange(i, i + m);
            let here = lowered(s).subrange(at, at + m);
            assert(there == marker && here == marker);
            assert(marker.skip(k) == marker.take(m - k)) by {
                assert forall|j: int| 0 <= j < m - k implies #[trigger] marker.skip(k)[j] == marker.take(m - k)[j] by {
                    assert(marker.skip(k)[j] == here[k + j]);
                    assert(here[k + j] == lowered(s)[at + k + j]);
                    assert(there[j] == lowered(out)[i + j]);
                    assert(lowered(out).take(at + m)[i + j] == lowered(s).take(at + m)[i + j]);
                }
                assert(marker.skip(k) =~= marker.take(m - k));
            }
            assert(false);
        } else {
            assert(out.skip(at + m) =~= after);
            assert(lowered(out).skip(at + m) =~= lowered(after));
            shifted(lowered(out), marker, at + m, i - (at + m));
            if n <= 0 {
                tokens_behind_a_marker_are_untold(rest, marker, i - (at + m));
                untold_shifts(out, at + m, i - (at + m) + m);
            } else {
                let deep = redacted_after(rest.skip(n), marker);
                let r = REDACTED@.len() as int;
                let j = i - (at + m);
                if j < r {
                    assert(lowered(after)[j] == lowered(REDACTED@)[j]) by {
                        assert(after[j] == REDACTED@[j]);
                    }
                    assert(lowered(after).subrange(j, j + m)[0] == marker[0]);
                    assert(false);
                } else {
                    assert(after.skip(r) =~= deep);
                    assert(lowered(after).skip(r) =~= lowered(deep));
                    shifted(lowered(after), marker, r, j - r);
                    tokens_behind_a_marker_are_untold(rest.skip(n), marker, j - r);
                    untold_shifts(after, r, j - r + m);
                    untold_shifts(out, at + m, j + m);
                }
            }
        }
    }
}

proof fn untold_shifts(s: Seq<char>, by: int, at: int)
    requires
        0 <= by <= s.len(),
        0 <= at,
        untold_from(s.skip(by), at),
    ensures
        untold_from(s, by + at),
{
    if at < s.skip(by).len() {
        assert(s.skip(by)[at] == s[by + at]);
        assert(s.skip(by).skip(at) =~= s.skip(by + at));
    }
}

proof fn token_is_inside(s: Seq<char>)
    ensures
        0 <= token_length(s) <= s.len(),
        token_length(s) == 0 && s.len() > 0 ==> ends_token(s[0]),
    decreases s.len(),
{
    if s.len() > 0 && !ends_token(s[0]) {
        token_is_inside(s.drop_first());
    }
}

/// The value of a sensitive key is never told, and no key is lost.
pub proof fn sensitive_values_are_untold(entries: Seq<(Seq<char>, JsonV)>, api_key: Seq<char>, i: int)
    requires
        0 <= i < entries.len(),
    ensures
        safe_entries(entries, api_key).len() == entries.len(),
        safe_entries(entries, api_key)[i].0 == entries[i].0,
        is_sensitive(entries[i].0) ==> safe_entries(entries, api_key)[i].1 == JsonV::Str(REDACTED@),
    decreases entries.len(),
{
    if entries.len() > 1 {
        let shorter = entries.drop_last();
        sensitive_values_are_untold(shorter, api_key, if i < shorter.len() { i } else { 0 });
    } else {
        assert(safe_entries(entries.drop_last(), api_key) =~= Seq::empty());
    }
}

/// A failure to reach the upstream is told without a word of its detail, asked or not.
pub proof fn transport_failures_are_told_without_detail(
    operation: Seq<char>,
    status: u16,
    detail: Seq<char>,
    other: Seq<char>,
    diagnostic: bool,
)
    ensures
        failure_line(operation, ErrorV { status, upstream_status: None, detail }, diagnostic) == failure_line(
            operation,
            ErrorV { status, upstream_status: None, detail: other },
            diagnostic,
        ),
{
}

/// A request says one word on the beta at most, and says it where either side asks for it.
pub proof fn one_word_on_the_beta(pairs: Seq<(Seq<char>, Seq<char>)>, wanted: bool, i: int)
    requires
        0 <= i < query_with_beta(pairs, wanted).len(),
        query_with_beta(pairs, wanted)[i].0 == "beta"@,
    ensures
        wanted || asks_beta(pairs),
        i == query_with_beta(pairs, wanted).len() - 1,
        query_with_beta(pairs, wanted)[i].1 == "true"@,
{
    let kept = without_beta(pairs);
    if i < kept.len() {
        beta_is_left_out(pairs, i);
    }
}

proof fn beta_is_left_out(pairs: Seq<(Seq<char>, Seq<char>)>, i: int)
    requires
        0 <= i < without_beta(pairs).len(),
    ensures
        without_beta(pairs)[i].0 != "beta"@,
    decreases pairs.len(),
{
    let before = without_beta(pairs.drop_last());
    if i < before.len() {
        beta_is_left_out(pairs.drop_last(), i);
    }
}

/// Requests that share a deadline never outlive it: none may take longer than what is left, to
/// connect or in all.
pub proof fn shared_deadlines_hold(config: ConfigV, deadline: u128, now: u128)
    ensures
        timeouts_before(config, deadline, now) matches Ok(t) ==> now + t.total == deadline && t.connect <= t.total,
        deadline <= now ==> timeouts_before(config, deadline, now) is Err,
{
}

} // verus!
