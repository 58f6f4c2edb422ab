//! Byte-level text utilities: UTF-8 scalar-value boundaries, first-match
//! substring search, and ASCII case folding.
//!
//! The document is UTF-8 bytes. A scalar value starts at every byte that is
//! not a continuation byte, so the boundary table of a valid UTF-8 document
//! lists exactly the byte offsets of its scalar values, plus a sentinel at
//! the document's byte length.

use vstd::prelude::*;

verus! {

/// True of a UTF-8 continuation byte (bit pattern `10xxxxxx`).
pub open spec fn is_continuation_byte(b: u8) -> bool {
    0x80 <= b <= 0xbf
}

/// The scalar-value boundaries of `text` at or after position `i`, ascending,
/// ending with a sentinel at `text.len()`.
pub open spec fn boundaries_from(text: Seq<u8>, i: int) -> Seq<int>
    decreases text.len() - i when 0 <= i <= text.len()
{
    if i >= text.len() {
        seq![text.len() as int]
    } else if is_continuation_byte(text[i]) {
        boundaries_from(text, i + 1)
    } else {
        seq![i] + boundaries_from(text, i + 1)
    }
}

/// All scalar-value boundaries of `text`, ascending, with a final sentinel at
/// `text.len()`.
pub open spec fn char_boundaries(text: Seq<u8>) -> Seq<int> {
    boundaries_from(text, 0)
}

/// Number of scalar values in `text` (for valid UTF-8: its character count).
pub open spec fn char_count(text: Seq<u8>) -> int {
    char_boundaries(text).len() - 1
}

/// `t` is the boundary table of `text`.
pub open spec fn is_boundary_table(t: Seq<usize>, text: Seq<u8>) -> bool {
    &&& t.len() == char_boundaries(text).len()
    &&& forall|k: int| 0 <= k < t.len() ==> #[trigger] t[k] as int == char_boundaries(text)[k]
}

/// Shape of `boundaries_from`: at least the sentinel, strictly ascending,
/// all positions within `[i, text.len()]`.
pub proof fn lemma_boundaries_from_props(text: Seq<u8>, i: int)
    requires
        0 <= i <= text.len(),
    ensures
        boundaries_from(text, i).len() >= 1,
        boundaries_from(text, i).last() == text.len() as int,
        forall|k: int|
            0 <= k < boundaries_from(text, i).len() ==> i <= #[trigger] boundaries_from(text, i)[k]
                <= text.len(),
        forall|k: int|
            0 <= k < boundaries_from(text, i).len() - 1 ==> #[trigger] boundaries_from(text, i)[k]
                < boundaries_from(text, i)[k + 1],
    decreases text.len() - i,
{
    if i >= text.len() {
    } else {
        lemma_boundaries_from_props(text, i + 1);
        if !is_continuation_byte(text[i]) {
            let rest = boundaries_from(text, i + 1);
            let whole = boundaries_from(text, i);
            assert(whole == seq![i] + rest);
            assert forall|k: int| 0 <= k < whole.len() - 1 implies #[trigger] whole[k] < whole[k
                + 1] by {
                if k > 0 {
                    assert(whole[k] == rest[k - 1]);
                    assert(whole[k + 1] == rest[k]);
                }
            }
        }
    }
}

/// As `lemma_boundaries_from_props`, for the whole table.
pub proof fn lemma_char_boundaries_props(text: Seq<u8>)
    ensures
        char_boundaries(text).len() >= 1,
        char_boundaries(text).last() == text.len() as int,
        forall|k: int|
            0 <= k < char_boundaries(text).len() ==> 0 <= #[trigger] char_boundaries(text)[k]
                <= text.len(),
        forall|k: int|
            0 <= k < char_boundaries(text).len() - 1 ==> #[trigger] char_boundaries(text)[k]
                < char_boundaries(text)[k + 1],
{
    lemma_boundaries_from_props(text, 0);
}

/// Build the boundary table of `text`: the byte offset of every scalar-value
/// start, ascending, then a sentinel at `text.len()`.
pub fn boundary_table(text: &Vec<u8>) -> (t: Vec<usize>)
    ensures
        is_boundary_table(t@, text@),
{
    let ghost whole = char_boundaries(text@);
    let mut t: Vec<usize> = Vec::new();
    let mut i: usize = 0;
    while i < text.len()
        invariant
            0 <= i <= text@.len(),
            whole == char_boundaries(text@),
            whole =~= t@.map_values(|x: usize| x as int) + boundaries_from(text@, i as int),
        decreases text@.len() - i,
    {
        if !(0x80 <= text[i] && text[i] <= 0xbf) {
            t.push(i);
            proof {
                assert(t@.map_values(|x: usize| x as int) =~= t@.drop_last().map_values(
                    |x: usize| x as int,
                ) + seq![i as int]);
            }
        }
        i = i + 1;
    }
    t.push(text.len());
    proof {
        assert(t@.map_values(|x: usize| x as int) =~= t@.drop_last().map_values(|x: usize| x as int)
            + seq![text@.len() as int]);
        assert(whole =~= t@.map_values(|x: usize| x as int));
        assert forall|k: int| 0 <= k < t@.len() implies #[trigger] t@[k] as int == char_boundaries(
            text@,
        )[k] by {
            assert(t@.map_values(|x: usize| x as int)[k] == t@[k] as int);
        }
    }
    t
}

/// `pat` occurs in `text` at position `p`.
pub open spec fn match_at(text: Seq<u8>, pat: Seq<u8>, p: int) -> bool {
    &&& 0 <= p
    &&& p + pat.len() <= text.len()
    &&& text.subrange(p, p + pat.len() as int) == pat
}

/// The first position `>= p` at which `pat` occurs in `text`, if any.
pub open spec fn first_match_from(text: Seq<u8>, pat: Seq<u8>, p: int) -> Option<int>
    decreases text.len() - p + 1 when 0 <= p
{
    if p + pat.len() > text.len() {
        None
    } else if match_at(text, pat, p) {
        Some(p)
    } else {
        first_match_from(text, pat, p + 1)
    }
}

/// The first position at which `pat` occurs in `text`, if any.
pub open spec fn first_match(text: Seq<u8>, pat: Seq<u8>) -> Option<int> {
    first_match_from(text, pat, 0)
}

/// First-match substring search, as `str::find` performs on byte strings.
pub fn find_first(text: &Vec<u8>, pat: &Vec<u8>) -> (r: Option<usize>)
    ensures
        match r {
            Some(p) => first_match(text@, pat@) == Some(p as int),
            None => first_match(text@, pat@) is None,
        },
{
    let n = text.len();
    let m = pat.len();
    if m > n {
        return None;
    }
    let mut p: usize = 0;
    loop
        invariant
            n == text@.len(),
            m == pat@.len(),
            m <= n,
            0 <= p <= n - m + 1,
            first_match(text@, pat@) == first_match_from(text@, pat@, p as int),
        decreases n - p,
    {
        if p > n - m {
            return None;
        }
        let mut j: usize = 0;
        let mut mismatch = false;
        while j < m
            invariant
                n == text@.len(),
                m == pat@.len(),
                0 <= j <= m,
                p + m <= n,
                !mismatch ==> text@.subrange(p as int, p + j as int) =~= pat@.subrange(
                    0,
                    j as int,
                ),
                mismatch ==> !match_at(text@, pat@, p as int),
            decreases m - j,
        {
            if text[p + j] != pat[j] {
                proof {
                    if match_at(text@, pat@, p as int) {
                        assert(text@.subrange(p as int, p + pat@.len() as int)[j as int]
                            == pat@[j as int]);
                    }
                }
                mismatch = true;
                j = pat.len();
            } else {
                proof {
                    assert(text@.subrange(p as int, p + (j + 1) as int) =~= text@.subrange(
                        p as int,
                        p + j as int,
                    ).push(text@[p + j]));
                    assert(pat@.subrange(0, (j + 1) as int) =~= pat@.subrange(0, j as int).push(
                        pat@[j as int],
                    ));
                }
                j = j + 1;
            }
        }
        if !mismatch {
            proof {
                assert(text@.subrange(p as int, p + pat@.len() as int) =~= pat@.subrange(
                    0,
                    pat@.len() as int,
                ));
                assert(pat@.subrange(0, pat@.len() as int) =~= pat@);
            }
            return Some(p);
        }
        p = p + 1;
    }
}

/// Byte-string equality, stated over the views.
pub fn bytes_eq(a: &Vec<u8>, b: &Vec<u8>) -> (r: bool)
    ensures
        r == (a@ == b@),
{
    let mut i: usize = 0;
    if a.len() != b.len() {
        return false;
    }
    while i < a.len()
        invariant
            a@.len() == b@.len(),
            0 <= i <= a@.len(),
            forall|k: int| 0 <= k < i ==> a@[k] == b@[k],
        decreases a@.len() - i,
    {
        if a[i] != b[i] {
            return false;
        }
        i = i + 1;
    }
    proof {
        assert(a@ =~= b@);
    }
    true
}

/// ASCII lower-casing of one byte; other bytes are unchanged.
pub open spec fn to_lower_byte(b: u8) -> u8 {
    if 0x41 <= b <= 0x5a {
        (b + 0x20) as u8
    } else {
        b
    }
}

/// ASCII lower-casing of a byte string.
pub open spec fn lower_seq(s: Seq<u8>) -> Seq<u8> {
    s.map_values(|b: u8| to_lower_byte(b))
}

/// Lower-case every ASCII letter of `s`, leaving all other bytes unchanged.
pub fn ascii_lowercase(s: &Vec<u8>) -> (r: Vec<u8>)
    ensures
        r@ == lower_seq(s@),
{
    let mut r: Vec<u8> = Vec::new();
    let mut i: usize = 0;
    while i < s.len()
        invariant
            0 <= i <= s@.len(),
            r@.len() == i,
            forall|k: int| 0 <= k < i ==> #[trigger] r@[k] == to_lower_byte(s@[k]),
        decreases s@.len() - i,
    {
        let b = s[i];
        if 0x41 <= b && b <= 0x5a {
            r.push(b + 0x20);
        } else {
            r.push(b);
        }
        i = i + 1;
    }
    proof {
        assert(r@ =~= lower_seq(s@));
    }
    r
}

/// The bytes of `text` in `[start, end)`, as a fresh vector.
pub fn copy_range(text: &Vec<u8>, start: usize, end: usize) -> (r: Vec<u8>)
    requires
        start <= end <= text@.len(),
    ensures
        r@ == text@.subrange(start as int, end as int),
{
    let mut r: Vec<u8> = Vec::new();
    let mut i: usize = start;
    while i < end
        invariant
            start <= i <= end <= text@.len(),
            r@.len() == i - start,
            forall|k: int| 0 <= k < r@.len() ==> #[trigger] r@[k] == text@[start + k],
        decreases end - i,
    {
        r.push(text[i]);
        i = i + 1;
    }
    proof {
        assert(r@ =~= text@.subrange(start as int, end as int));
    }
    r
}

/// True of an ASCII whitespace byte (space, tab, line feed, vertical tab,
/// form feed, carriage return).
pub open spec fn is_ascii_whitespace(b: u8) -> bool {
    b == 0x20 || (0x09 <= b <= 0x0d)
}

/// `s` holds nothing but ASCII whitespace.
pub open spec fn is_blank(s: Seq<u8>) -> bool {
    forall|k: int| 0 <= k < s.len() ==> is_ascii_whitespace(#[trigger] s[k])
}

/// True when `text` holds nothing but ASCII whitespace (in particular, when
/// it is empty).
pub fn is_blank_text(text: &Vec<u8>) -> (r: bool)
    ensures
        r == is_blank(text@),
{
    let mut i: usize = 0;
    while i < text.len()
        invariant
            0 <= i <= text@.len(),
            forall|k: int| 0 <= k < i ==> is_ascii_whitespace(#[trigger] text@[k]),
        decreases text@.len() - i,
    {
        let b = text[i];
        if !(b == 0x20 || (0x09 <= b && b <= 0x0d)) {
            return false;
        }
        i = i + 1;
    }
    true
}

/// The UTF-8 bytes of a character sequence.
pub open spec fn str_bytes(s: Seq<char>) -> Seq<u8> {
    vstd::utf8::encode_utf8(s)
}

/// True when the string holds nothing but ASCII whitespace (in particular,
/// when it is empty).
pub fn is_blank_str(s: &String) -> (r: bool)
    ensures
        r == is_blank(str_bytes(s@)),
{
    let v = s.as_str().as_bytes_vec();
    is_blank_text(&v)
}

/// `new` is `old` with `[start, start + removed)` replaced by `repl`.
pub open spec fn spliced(old: Seq<u8>, start: int, removed: int, repl: Seq<u8>) -> Seq<u8> {
    old.subrange(0, start) + repl + old.subrange(start + removed, old.len() as int)
}

/// Splice `repl` over `[start, start + removed)` of `text`.
pub fn splice(text: &Vec<u8>, start: usize, removed: usize, repl: &Vec<u8>) -> (r: Vec<u8>)
    requires
        start + removed <= text@.len(),
    ensures
        r@ == spliced(text@, start as int, removed as int, repl@),
        r@.len() == text@.len() - removed + repl@.len(),
{
    let n = text.len();
    let mut r = copy_range(text, 0, start);
    let mut i: usize = 0;
    while i < repl.len()
        invariant
            n == text@.len(),
            start + removed <= n,
            0 <= i <= repl@.len(),
            r@ =~= text@.subrange(0, start as int) + repl@.subrange(0, i as int),
        decreases repl@.len() - i,
    {
        r.push(repl[i]);
        proof {
            assert(repl@.subrange(0, i + 1) =~= repl@.subrange(0, i as int).push(repl@[i as int]));
        }
        i = i + 1;
    }
    let mut j: usize = start + removed;
    while j < text.len()
        invariant
            n == text@.len(),
            start + removed <= j <= text@.len(),
            r@ =~= text@.subrange(0, start as int) + repl@ + text@.subrange(
                start + removed,
                j as int,
            ),
        decreases text@.len() - j,
    {
        r.push(text[j]);
        proof {
            assert(text@.subrange(start + removed, j + 1) =~= text@.subrange(
                start + removed,
                j as int,
            ).push(text@[j as int]));
        }
        j = j + 1;
    }
    proof {
        assert(repl@.subrange(0, repl@.len() as int) =~= repl@);
        assert(r@ =~= spliced(text@, start as int, removed as int, repl@));
    }
    r
}

} // verus!
