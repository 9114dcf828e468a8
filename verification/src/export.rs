//! Decoding the annotation layer that the export path receives: a base64
//! payload, possibly wrapped in a data URL. The payload extraction — the
//! text between the first data-URL marker and the next, or the whole input
//! when no marker occurs — is verified; the decoding itself is base64's.

use vstd::prelude::*;
use vstd::string::StrSliceExecFns;
use vstd::string::StringExecFns;
use crate::text::chars_vec;

verus! {

/// Where an exported item's artifacts were written.
pub struct ExportResult {
    pub annotated_path: String,
    pub thumbnail_path: String,
}

/// The marker that separates a data URL's header from its payload.
pub open spec fn data_url_marker() -> Seq<char> {
    "base64,"@
}

/// Index of the first occurrence of `n` in `s`, or the length of `s` when it
/// does not occur.
pub open spec fn first_match_at(s: Seq<char>, n: Seq<char>) -> int
    decreases s.len(),
{
    if n.len() == 0 {
        0
    } else if s.len() < n.len() {
        s.len() as int
    } else if s.take(n.len() as int) == n {
        0
    } else {
        1 + first_match_at(s.drop_first(), n)
    }
}

proof fn lemma_first_match_found(s: Seq<char>, n: Seq<char>, i: int)
    requires
        0 <= i,
        i + n.len() <= s.len(),
        s.subrange(i, i + n.len()) == n,
        forall|k: int| 0 <= k < i ==> #[trigger] s.subrange(k, k + n.len() as int) != n,
    ensures
        first_match_at(s, n) == i,
    decreases i,
{
    if i == 0 {
        assert(s.take(n.len() as int) =~= s.subrange(0, n.len() as int));
        if n.len() == 0 {
            assert(s.subrange(i, i + n.len()) =~= s.take(n.len() as int));
        }
    } else {
        assert(s.subrange(0, 0 + n.len() as int) != n);
        assert(s.subrange(0, n.len() as int) != n);
        assert(s.take(n.len() as int) =~= s.subrange(0, n.len() as int));
        assert(n.len() > 0) by {
            if n.len() == 0 {
                assert(s.take(0) =~= n);
            }
        }
        assert forall|k: int| 0 <= k < i - 1 implies #[trigger] s.drop_first().subrange(
            k,
            k + n.len() as int,
        ) != n by {
            assert(s.drop_first().subrange(k, k + n.len() as int) =~= s.subrange(
                k + 1,
                k + 1 + n.len(),
            ));
        }
        assert(s.drop_first().subrange(i - 1, i - 1 + n.len()) =~= s.subrange(i, i + n.len()));
        lemma_first_match_found(s.drop_first(), n, i - 1);
    }
}

proof fn lemma_first_match_absent(s: Seq<char>, n: Seq<char>)
    requires
        forall|k: int|
            0 <= k && k + n.len() <= s.len() ==> #[trigger] s.subrange(k, k + n.len() as int)
                != n,
    ensures
        first_match_at(s, n) == s.len(),
    decreases s.len(),
{
    if n.len() == 0 {
        assert(s.subrange(0, 0 + n.len() as int) != n);
        assert(s.subrange(0, 0) =~= Seq::<char>::empty());
        assert(n =~= Seq::<char>::empty());
    } else if s.len() < n.len() {
    } else {
        assert(s.subrange(0, 0 + n.len() as int) != n);
        assert(s.take(n.len() as int) =~= s.subrange(0, n.len() as int));
        assert forall|k: int|
            0 <= k && k + n.len() <= s.drop_first().len() implies #[trigger] s.drop_first()
            .subrange(k, k + n.len() as int) != n by {
            assert(s.drop_first().subrange(k, k + n.len() as int) =~= s.subrange(
                k + 1,
                k + 1 + n.len(),
            ));
        }
        lemma_first_match_absent(s.drop_first(), n);
    }
}

/// Find the data-URL marker at or after `from`; the result is the absolute
/// index of its first occurrence, or the length when there is none.
fn find_marker_from(v: &Vec<char>, from: usize) -> (r: usize)
    requires
        from <= v@.len(),
    ensures
        from <= r <= v@.len(),
        r - from == first_match_at(v@.skip(from as int), data_url_marker()),
        r < v@.len() ==> r + 7 <= v@.len() && v@.subrange(r as int, r + 7) == data_url_marker(),
{
    proof {
        reveal_strlit("base64,");
        assert(data_url_marker().len() == 7);
    }
    let ghost rest = v@.skip(from as int);
    let n = v.len();
    let mut k: usize = from;
    while n - k >= 7
        invariant
            v@.len() == n,
            from <= k <= n,
            rest == v@.skip(from as int),
            data_url_marker().len() == 7,
            forall|j: int|
                0 <= j < k - from ==> #[trigger] rest.subrange(j, j + 7) != data_url_marker(),
        decreases n - k,
    {
        let hit = v[k] == 'b' && v[k + 1] == 'a' && v[k + 2] == 's' && v[k + 3] == 'e' && v[k + 4]
            == '6' && v[k + 5] == '4' && v[k + 6] == ',';
        proof {
            reveal_strlit("base64,");
            assert(forall|t: int| 0 <= t < 7 ==> #[trigger] rest[k - from + t] == v@[k + t]);
            let w = rest.subrange(k - from, k - from + 7);
            if hit {
                assert(w =~= data_url_marker());
            } else {
                if w == data_url_marker() {
                    assert(v@[k as int] == 'b') by {
                        assert(w[0] == data_url_marker()[0]);
                    }
                    assert(v@[k + 1] == 'a') by {
                        assert(w[1] == data_url_marker()[1]);
                    }
                    assert(v@[k + 2] == 's') by {
                        assert(w[2] == data_url_marker()[2]);
                    }
                    assert(v@[k + 3] == 'e') by {
                        assert(w[3] == data_url_marker()[3]);
                    }
                    assert(v@[k + 4] == '6') by {
                        assert(w[4] == data_url_marker()[4]);
                    }
                    assert(v@[k + 5] == '4') by {
                        assert(w[5] == data_url_marker()[5]);
                    }
                    assert(v@[k + 6] == ',') by {
                        assert(w[6] == data_url_marker()[6]);
                    }
                }
            }
        }
        if hit {
            proof {
                lemma_first_match_found(rest, data_url_marker(), k - from);
                assert(v@.subrange(k as int, k + 7) =~= rest.subrange(k - from, k - from + 7));
            }
            return k;
        }
        k = k + 1;
    }
    proof {
        assert forall|j: int| 0 <= j && j + 7 <= rest.len() implies #[trigger] rest.subrange(
            j,
            j + 7,
        ) != data_url_marker() by {
            assert(j < k - from);
        }
        lemma_first_match_absent(rest, data_url_marker());
    }
    n
}

/// The base64 payload of the input: the text between the first data-URL
/// marker and the next occurrence (or the end), or the whole input when no
/// marker occurs.
pub open spec fn spec_b64_payload(s: Seq<char>) -> Seq<char> {
    let m = first_match_at(s, data_url_marker());
    if m == s.len() {
        s
    } else {
        let rest = s.skip(m + 7);
        rest.take(first_match_at(rest, data_url_marker()))
    }
}

/// What base64's standard engine decodes a string to, when it is valid
/// base64: a function of the characters alone.
pub uninterp spec fn b64_standard_decode_of(s: Seq<char>) -> Option<Seq<u8>>;

/// Relies on base64's `STANDARD` engine to decode, refusing text that is not
/// valid base64.
#[verifier::external_body]
fn b64_decode(s: &str) -> (r: Result<Vec<u8>, ()>)
    ensures
        r is Ok <==> b64_standard_decode_of(s@) is Some,
        r matches Ok(v) ==> b64_standard_decode_of(s@) == Some(v@),
{
    match base64::Engine::decode(&base64::engine::general_purpose::STANDARD, s) {
        Ok(v) => Ok(v),
        Err(_) => Err(()),
    }
}

/// Decode the annotation layer: strip a data-URL header when one is present,
/// then decode the base64 payload.
pub fn base64_decode(input: &str) -> (r: Result<Vec<u8>, String>)
    ensures
        r is Ok <==> b64_standard_decode_of(spec_b64_payload(input@)) is Some,
        r matches Ok(v) ==> b64_standard_decode_of(spec_b64_payload(input@)) == Some(v@),
        r matches Err(e) ==> e@ == "invalid base64 data"@,
{
    let v = chars_vec(input);
    proof {
        assert(v@.skip(0) =~= v@);
    }
    let m = find_marker_from(&v, 0);
    let decoded = if m == v.len() {
        proof {
            assert(spec_b64_payload(input@) == input@);
        }
        b64_decode(input)
    } else {
        let start = m + 7;
        let rel = find_marker_from(&v, start);
        let piece = input.substring_char(start, rel);
        proof {
            let rest = input@.skip(start as int);
            assert(piece@ =~= rest.take(rel - start));
            assert(spec_b64_payload(input@) == piece@);
        }
        b64_decode(piece)
    };
    match decoded {
        Ok(bytes) => Ok(bytes),
        Err(_) => Err(String::from_str("invalid base64 data")),
    }
}

} // verus!
