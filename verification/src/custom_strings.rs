//! Substring helpers over `&str`: the narrow string interface the modem
//! logic and the reporting code consume.

use vstd::prelude::*;
use vstd::string::StrSliceExecFns;
use vstd::string::StringSliceAdditionalSpecFns;
use vstd::slice::slice_subrange;
use vstd::utf8::valid_utf8;

verus! {

/// Relies on `String`'s `FromIterator<char>` implementation: collecting an
/// iterator of characters concatenates exactly those characters.
#[verifier::external_body]
pub fn string_from_chars(v: &Vec<char>) -> (r: String)
    ensures
        r@ == v@,
{
    v.iter().collect()
}

/// Relies on `core::str::from_utf8`: it returns `Ok` exactly when the bytes
/// are valid UTF-8, and the resulting slice views the same bytes.
#[verifier::external_body]
pub fn str_from_bytes<'a>(v: &'a [u8]) -> (r: Option<&'a str>)
    ensures
        r is Some <==> valid_utf8(v@),
        r matches Some(s) ==> s.spec_bytes() == v@,
{
    core::str::from_utf8(v).ok()
}

/// The delimiter `d` occurs in `s` starting at character index `i`.
pub open spec fn spec_match_at(s: Seq<char>, d: Seq<char>, i: int) -> bool {
    0 <= i && i + d.len() <= s.len() && s.subrange(i, i + d.len()) == d
}

/// The delimiter `d` occurs somewhere in `s`.
pub open spec fn spec_has_sub(s: Seq<char>, d: Seq<char>) -> bool {
    exists|i: int| spec_match_at(s, d, i)
}

/// `i` is the first character index at which `d` occurs in `s`.
pub open spec fn spec_first_match_at(s: Seq<char>, d: Seq<char>, i: int) -> bool {
    spec_match_at(s, d, i) && forall|k: int| 0 <= k < i ==> !spec_match_at(s, d, k)
}

/// Character-wise equality of two string slices.
pub fn str_eq(a: &str, b: &str) -> (r: bool)
    ensures
        r == (a@ == b@),
{
    let n = a.unicode_len();
    let m = b.unicode_len();
    if n != m {
        return false;
    }
    let mut i: usize = 0;
    while i < n
        invariant
            n == a@.len(),
            n == b@.len(),
            i <= n,
            forall|k: int| 0 <= k < i ==> a@[k] == b@[k],
        decreases n - i,
    {
        if a.get_char(i) != b.get_char(i) {
            return false;
        }
        i = i + 1;
    }
    proof {
        assert(a@ =~= b@);
    }
    true
}

/// `s` begins with the characters of `p`.
pub open spec fn spec_starts_with(s: Seq<char>, p: Seq<char>) -> bool {
    p.len() <= s.len() && s.take(p.len() as int) == p
}

/// Whether `s` starts with `prefix`, character-wise.
pub fn str_starts_with(s: &str, prefix: &str) -> (r: bool)
    ensures
        r == spec_starts_with(s@, prefix@),
{
    let n = s.unicode_len();
    let m = prefix.unicode_len();
    if m > n {
        return false;
    }
    let mut i: usize = 0;
    while i < m
        invariant
            n == s@.len(),
            m == prefix@.len(),
            m <= n,
            i <= m,
            forall|k: int| 0 <= k < i ==> s@[k] == prefix@[k],
        decreases m - i,
    {
        if s.get_char(i) != prefix.get_char(i) {
            proof {
                if spec_starts_with(s@, prefix@) {
                    assert(s@.take(m as int)[i as int] == s@[i as int]);
                }
            }
            return false;
        }
        i = i + 1;
    }
    proof {
        assert(s@.take(m as int) =~= prefix@);
    }
    true
}

/// Character index of the first occurrence of `needle` in `haystack`, if any.
fn find_sub(haystack: &str, needle: &str) -> (r: Option<usize>)
    ensures
        match r {
            Some(j) => spec_first_match_at(haystack@, needle@, j as int),
            None => !spec_has_sub(haystack@, needle@),
        },
{
    let n = haystack.unicode_len();
    let m = needle.unicode_len();
    if m > n {
        return None;
    }
    if m == 0 {
        proof {
            assert(haystack@.subrange(0, 0) =~= needle@);
        }
        return Some(0);
    }
    let mut i: usize = 0;
    while i <= n - m
        invariant
            n == haystack@.len(),
            m == needle@.len(),
            0 < m <= n,
            i <= n - m + 1,
            forall|k: int| 0 <= k < i ==> !spec_match_at(haystack@, needle@, k),
        decreases n - m + 1 - i,
    {
        let mut j: usize = 0;
        let mut matches = true;
        while matches && j < m
            invariant
                n == haystack@.len(),
                m == needle@.len(),
                i + m <= n,
                j <= m,
                matches ==> forall|t: int| 0 <= t < j ==> haystack@[i + t] == needle@[t],
                !matches ==> !spec_match_at(haystack@, needle@, i as int),
            decreases (m - j) + (if matches { 1int } else { 0int }),
        {
            if haystack.get_char(i + j) != needle.get_char(j) {
                proof {
                    if spec_match_at(haystack@, needle@, i as int) {
                        assert(haystack@.subrange(i as int, i + m as int)[j as int]
                            == haystack@[i + j]);
                    }
                }
                matches = false;
            } else {
                j = j + 1;
            }
        }
        if matches {
            proof {
                assert(haystack@.subrange(i as int, i + m as int) =~= needle@);
            }
            return Some(i);
        }
        i = i + 1;
    }
    proof {
        assert forall|k: int| !spec_match_at(haystack@, needle@, k) by {
            if 0 <= k && k + needle@.len() <= haystack@.len() {
                assert(k < i);
            }
        }
    }
    None
}

/// Returns the substring after the first occurrence of `delimiter`, if
/// `delimiter` occurs in `input` at all.
pub fn extract_after_delimiter<'a>(input: &'a str, delimiter: &str) -> (r: Option<&'a str>)
    ensures
        r is Some <==> spec_has_sub(input@, delimiter@),
        r matches Some(suffix) ==> exists|i: int|
            #[trigger] spec_first_match_at(input@, delimiter@, i) && suffix@ == input@.skip(
                i + delimiter@.len(),
            ),
{
    match find_sub(input, delimiter) {
        Some(i) => {
            let n = input.unicode_len();
            let suffix = input.substring_char(i + delimiter.unicode_len(), n);
            proof {
                assert(suffix@ =~= input@.skip(i + delimiter@.len()));
            }
            Some(suffix)
        },
        None => None,
    }
}

/// Returns the substring before the first occurrence of `delimiter`, if
/// `delimiter` occurs in `input` at all.
pub fn extract_before_delimiter<'a>(input: &'a str, delimiter: &str) -> (r: Option<&'a str>)
    ensures
        r is Some <==> spec_has_sub(input@, delimiter@),
        r matches Some(prefix) ==> exists|i: int|
            #[trigger] spec_first_match_at(input@, delimiter@, i) && prefix@ == input@.take(i),
{
    match find_sub(input, delimiter) {
        Some(i) => {
            let prefix = input.substring_char(0, i);
            proof {
                assert(prefix@ =~= input@.take(i as int));
            }
            Some(prefix)
        },
        None => None,
    }
}

/// Returns the first substring between `start_delim` and the next
/// `end_delim` after it, if both are present in that order.
pub fn extract_between_delimiters<'a>(
    input: &'a str,
    start_delim: &str,
    end_delim: &str,
) -> (r: Option<&'a str>)
    ensures
        r matches Some(mid) ==> exists|i: int, j: int|
            {
                let tail = input@.skip(i + start_delim@.len());
                #[trigger] spec_first_match_at(input@, start_delim@, i) && #[trigger] spec_first_match_at(
                    input@.skip(i + start_delim@.len()),
                    end_delim@,
                    j,
                ) && mid@ == tail.take(j)
            },
        r is None <==> (!spec_has_sub(input@, start_delim@) || (forall|i: int|
            spec_first_match_at(input@, start_delim@, i) ==> !spec_has_sub(
                input@.skip(i + start_delim@.len()),
                end_delim@,
            ))),
{
    let start_index = match find_sub(input, start_delim) {
        Some(i) => i,
        None => {
            return None;
        },
    };
    let n = input.unicode_len();
    let after_start = input.substring_char(start_index + start_delim.unicode_len(), n);
    proof {
        assert(after_start@ =~= input@.skip(start_index + start_delim@.len()));
    }
    match find_sub(after_start, end_delim) {
        Some(j) => {
            let mid = after_start.substring_char(0, j);
            proof {
                assert(mid@ =~= after_start@.take(j as int));
            }
            Some(mid)
        },
        None => None,
    }
}

/// The bytes of `bytes` with an ASCII comma inserted between every two
/// adjacent bytes.
pub open spec fn spec_comma_separated(bytes: Seq<u8>) -> Seq<u8> {
    Seq::new(
        if bytes.len() == 0 {
            0
        } else {
            (2 * bytes.len() - 1) as nat
        },
        |i: int|
            if i % 2 == 0 {
                bytes[i / 2]
            } else {
                44u8
            },
    )
}

/// Writes the bytes of `input` into `output` with a comma between every
/// two adjacent bytes, and returns that prefix of `output` as a string
/// slice.  Fails when `output` is too short, or when the interleaving is
/// not valid UTF-8 (as happens inside a multi-byte character).
pub fn separate_chars_by_commas<'a>(input: &str, output: &'a mut [u8]) -> (r: Option<&'a str>)
    requires
        2 * input.spec_bytes().len() <= usize::MAX,
    ensures
        input.spec_bytes().len() == 0 ==> (r matches Some(s) && s@ =~= Seq::<char>::empty()
            && final(output)@ == old(output)@),
        input.spec_bytes().len() > 0 && old(output)@.len() < 2 * input.spec_bytes().len() - 1
            ==> r is None && final(output)@ == old(output)@,
        input.spec_bytes().len() > 0 && old(output)@.len() >= 2 * input.spec_bytes().len() - 1
            ==> {
                let written = spec_comma_separated(input.spec_bytes());
                final(output)@ =~= written + old(output)@.skip(written.len() as int) && (r
                    is Some <==> valid_utf8(written)) && (r matches Some(s) ==> s.spec_bytes()
                    == written)
            },
{
    let bytes = input.as_bytes();
    let len = bytes.len();
    if len == 0 {
        proof {
            reveal_strlit("");
        }
        return Some("");
    }
    let required = len + (len - 1);
    if output.len() < required {
        return None;
    }
    let ghost out0 = output@;
    let mut i: usize = 0;
    let mut idx: usize = 0;
    while idx < len
        invariant
            len == bytes@.len(),
            bytes@ == input.spec_bytes(),
            0 < len,
            required == 2 * len - 1,
            output@.len() == out0.len() >= required,
            idx <= len,
            i == if idx == len { required as int } else { 2 * idx },
            forall|k: int| 0 <= k < i ==> output@[k] == spec_comma_separated(bytes@)[k],
            forall|k: int| i <= k < out0.len() ==> output@[k] == out0[k],
        decreases len - idx,
    {
        output[i] = bytes[idx];
        i = i + 1;
        if idx != len - 1 {
            output[i] = 44u8;
            i = i + 1;
        }
        idx = idx + 1;
    }
    let written = slice_subrange(output, 0, required);
    proof {
        assert(written@ =~= spec_comma_separated(bytes@));
        assert(output@ =~= spec_comma_separated(bytes@) + out0.skip(required as int));
    }
    str_from_bytes(written)
}

} // verus!
