//! Character classification and whitespace-collapse algorithms shared by the
//! transformers, together with the spec-level text model (sequences of chars).

use vstd::prelude::*;
use vstd::string::StrSliceExecFns;

verus! {

/// The Unicode `White_Space` code points, the characters that count as
/// layout whitespace when collapsing runs.
pub open spec fn is_space(c: char) -> bool {
    ||| c == ' '
    ||| 0x09 <= c as u32 <= 0x0D
    ||| c as u32 == 0x85
    ||| c as u32 == 0xA0
    ||| c as u32 == 0x1680
    ||| 0x2000 <= c as u32 <= 0x200A
    ||| c as u32 == 0x2028
    ||| c as u32 == 0x2029
    ||| c as u32 == 0x202F
    ||| c as u32 == 0x205F
    ||| c as u32 == 0x3000
}

/// True for characters whose script carries no inter-word spacing
/// (CJK ideographs, hiragana, katakana, full-width forms, CJK symbols and
/// punctuation), plus ASCII digits, which are treated as full-width only for
/// the purpose of deleting a whitespace run beside such text.
pub open spec fn is_fullwidth(c: char) -> bool {
    ||| 0x4E00 <= c as u32 <= 0x9FFF
    ||| 0x3040 <= c as u32 <= 0x309F
    ||| 0x30A0 <= c as u32 <= 0x30FF
    ||| 0xFF00 <= c as u32 <= 0xFFEF
    ||| 0x3000 <= c as u32 <= 0x303F
    ||| 0x30 <= c as u32 <= 0x39
}

pub fn space_char(c: char) -> (r: bool)
    ensures
        r == is_space(c),
{
    let u = c as u32;
    u == 0x20 || (0x09 <= u && u <= 0x0D) || u == 0x85 || u == 0xA0 || u == 0x1680 || (0x2000
        <= u && u <= 0x200A) || u == 0x2028 || u == 0x2029 || u == 0x202F || u == 0x205F || u
        == 0x3000
}

pub fn fullwidth_char(c: char) -> (r: bool)
    ensures
        r == is_fullwidth(c),
{
    let u = c as u32;
    (0x4E00 <= u && u <= 0x9FFF) || (0x3040 <= u && u <= 0x309F) || (0x30A0 <= u && u <= 0x30FF)
        || (0xFF00 <= u && u <= 0xFFEF) || (0x3000 <= u && u <= 0x303F) || (0x30 <= u && u <= 0x39)
}

/// Relies on `String::push`: appends one character to the string.
#[verifier::external_body]
fn push_char(s: &mut String, c: char)
    ensures
        final(s)@ == old(s)@.push(c),
{
    s.push(c);
}

/// The characters of `s`, one vector element per `char`.
pub fn chars_of(s: &str) -> (v: Vec<char>)
    ensures
        v@ == s@,
{
    let n = s.unicode_len();
    let mut v: Vec<char> = Vec::new();
    let mut i: usize = 0;
    while i < n
        invariant
            n == s@.len(),
            i <= n,
            v@ == s@.subrange(0, i as int),
        decreases n - i,
    {
        v.push(s.get_char(i));
        proof {
            assert(v@ =~= s@.subrange(0, i + 1 as int));
        }
        i = i + 1;
    }
    proof {
        assert(v@ =~= s@);
    }
    v
}

/// The string holding exactly the characters of `v`.
pub fn string_from_chars(v: &Vec<char>) -> (s: String)
    ensures
        s@ == v@,
{
    let mut s = String::new();
    let mut i: usize = 0;
    while i < v.len()
        invariant
            i <= v@.len(),
            s@ == v@.subrange(0, i as int),
        decreases v@.len() - i,
    {
        push_char(&mut s, v[i]);
        proof {
            assert(s@ =~= v@.subrange(0, i + 1 as int));
        }
        i = i + 1;
    }
    proof {
        assert(s@ =~= v@);
    }
    s
}

/// What the aggressive whitespace policy leaves: the text with every
/// whitespace character removed.
pub open spec fn strip_spaces(s: Seq<char>) -> Seq<char> {
    s.filter(|c: char| !is_space(c))
}

/// Removing all whitespace is idempotent: stripping already-stripped text
/// changes nothing.
pub proof fn lemma_strip_spaces_idempotent(s: Seq<char>)
    ensures
        strip_spaces(strip_spaces(s)) == strip_spaces(s),
    decreases s.len(),
{
    reveal(Seq::filter);
    let pred = |c: char| !is_space(c);
    if s.len() > 0 {
        lemma_strip_spaces_idempotent(s.drop_last());
        let f = s.filter(pred);
        let fd = s.drop_last().filter(pred);
        if pred(s.last()) {
            assert(f == fd.push(s.last()));
            assert(f.drop_last() =~= fd);
            assert(f.last() == s.last());
            assert(f.filter(pred) == fd.filter(pred).push(s.last()));
        }
    }
}

/// Removes every whitespace character from `s`: the aggressive policy,
/// suited to scripts where any space is a layout artifact.
pub fn remove_all_spaces(s: &str) -> (r: String)
    ensures
        r@ == strip_spaces(s@),
{
    let v = chars_of(s);
    let mut out: Vec<char> = Vec::new();
    let mut i: usize = 0;
    proof {
        assert(v@.subrange(0, 0).filter(|c: char| !is_space(c)) =~= Seq::<char>::empty()) by {
            reveal(Seq::filter);
        }
    }
    while i < v.len()
        invariant
            i <= v@.len(),
            out@ == v@.subrange(0, i as int).filter(|c: char| !is_space(c)),
        decreases v@.len() - i,
    {
        let c = v[i];
        proof {
            let pred = |c: char| !is_space(c);
            let pre = v@.subrange(0, i as int);
            assert(v@.subrange(0, i + 1 as int) =~= pre.push(v@[i as int]));
            assert(pre.push(v@[i as int]).drop_last() =~= pre);
            assert(pre.push(v@[i as int]).filter(pred) == if pred(v@[i as int]) {
                pre.filter(pred).push(v@[i as int])
            } else {
                pre.filter(pred)
            }) by {
                reveal(Seq::filter);
            }
        }
        if !space_char(c) {
            out.push(c);
        }
        i = i + 1;
    }
    proof {
        assert(v@.subrange(0, v@.len() as int) =~= v@);
    }
    string_from_chars(&out)
}

/// The end of the whitespace run starting at `i`: the first position at or
/// after `i` holding a non-whitespace character, or the text's end.
pub open spec fn span_spaces(s: Seq<char>, i: int) -> int
    decreases s.len() - i,
{
    if i < 0 || i >= s.len() {
        s.len() as int
    } else if !is_space(s[i]) {
        i
    } else {
        span_spaces(s, i + 1)
    }
}

proof fn lemma_span_spaces_bounds(s: Seq<char>, i: int)
    requires
        0 <= i <= s.len(),
    ensures
        i <= span_spaces(s, i) <= s.len(),
        i < s.len() && is_space(s[i]) ==> span_spaces(s, i) >= i + 1,
        span_spaces(s, i) < s.len() ==> !is_space(s[span_spaces(s, i)]),
        forall|j: int| i <= j < span_spaces(s, i) ==> is_space(#[trigger] s[j]),
    decreases s.len() - i,
{
    if i < s.len() && is_space(s[i]) {
        lemma_span_spaces_bounds(s, i + 1);
    }
}

proof fn lemma_span_spaces_at(s: Seq<char>, i: int, k: int)
    requires
        0 <= i <= k <= s.len(),
        forall|j: int| i <= j < k ==> is_space(#[trigger] s[j]),
        k == s.len() || !is_space(s[k]),
    ensures
        span_spaces(s, i) == k,
    decreases k - i,
{
    if i < k {
        lemma_span_spaces_at(s, i + 1, k);
    }
}

/// One pass over the text, one whole whitespace run at a time: a run whose
/// two neighbours are both full-width disappears, any other run becomes a
/// single space, and every other character is copied. `prev` is the
/// character standing immediately before position `i`, if any.
pub open spec fn collapse_runs(s: Seq<char>, i: int, prev: Option<char>) -> Seq<char>
    decreases s.len() - i,
    via collapse_runs_dec
{
    if i < 0 || i >= s.len() {
        Seq::empty()
    } else if !is_space(s[i]) {
        seq![s[i]] + collapse_runs(s, i + 1, Some(s[i]))
    } else {
        let j = span_spaces(s, i);
        let next: Option<char> = if j < s.len() {
            Some(s[j])
        } else {
            None
        };
        let kept: Seq<char> = if prev is Some && is_fullwidth(prev->0) && next is Some
            && is_fullwidth(next->0) {
            Seq::empty()
        } else {
            seq![' ']
        };
        kept + collapse_runs(s, j, prev)
    }
}

#[via_fn]
proof fn collapse_runs_dec(s: Seq<char>, i: int, prev: Option<char>) {
    if 0 <= i < s.len() && is_space(s[i]) {
        lemma_span_spaces_bounds(s, i);
    }
}

pub open spec fn drop_leading_spaces(s: Seq<char>) -> Seq<char>
    decreases s.len(),
{
    if s.len() > 0 && is_space(s[0]) {
        drop_leading_spaces(s.drop_first())
    } else {
        s
    }
}

pub open spec fn drop_trailing_spaces(s: Seq<char>) -> Seq<char>
    decreases s.len(),
{
    if s.len() > 0 && is_space(s.last()) {
        drop_trailing_spaces(s.drop_last())
    } else {
        s
    }
}

pub open spec fn trim_spaces(s: Seq<char>) -> Seq<char> {
    drop_trailing_spaces(drop_leading_spaces(s))
}

/// What the width-aware whitespace policy leaves: a whitespace run whose
/// immediate neighbours are both full-width is deleted, every other run
/// collapses to a single space, and the ends are trimmed.
pub open spec fn collapse_fullwidth(s: Seq<char>) -> Seq<char> {
    trim_spaces(collapse_runs(s, 0, None))
}

proof fn lemma_drop_leading_at(s: Seq<char>, k: int)
    requires
        0 <= k <= s.len(),
        forall|j: int| 0 <= j < k ==> is_space(#[trigger] s[j]),
        k == s.len() || !is_space(s[k]),
    ensures
        drop_leading_spaces(s) == s.subrange(k, s.len() as int),
    decreases k,
{
    if k == 0 {
        assert(s.subrange(0, s.len() as int) =~= s);
    } else {
        lemma_drop_leading_at(s.drop_first(), k - 1);
        assert(s.drop_first().subrange(k - 1, s.drop_first().len() as int) =~= s.subrange(
            k,
            s.len() as int,
        ));
    }
}

proof fn lemma_drop_trailing_at(s: Seq<char>, k: int)
    requires
        0 <= k <= s.len(),
        forall|j: int| k <= j < s.len() ==> is_space(#[trigger] s[j]),
        k == 0 || !is_space(s[k - 1]),
    ensures
        drop_trailing_spaces(s) == s.subrange(0, k),
    decreases s.len(),
{
    if k == s.len() {
        if s.len() == 0 || !is_space(s.last()) {
            assert(s.subrange(0, s.len() as int) =~= s);
        } else {
            assert(false);
        }
    } else {
        lemma_drop_trailing_at(s.drop_last(), k);
        assert(s.drop_last().subrange(0, k) =~= s.subrange(0, k));
    }
}

/// `v` with leading and trailing whitespace characters removed.
pub fn trim_chars(v: &Vec<char>) -> (r: Vec<char>)
    ensures
        r@ == trim_spaces(v@),
{
    let n = v.len();
    let mut a: usize = 0;
    while a < n && space_char(v[a])
        invariant
            n == v@.len(),
            a <= n,
            forall|j: int| 0 <= j < a ==> is_space(#[trigger] v@[j]),
        decreases n - a,
    {
        a = a + 1;
    }
    proof {
        lemma_drop_leading_at(v@, a as int);
    }
    let ghost mid = v@.subrange(a as int, n as int);
    let mut b: usize = n;
    while b > a && space_char(v[b - 1])
        invariant
            n == v@.len(),
            a <= b <= n,
            forall|j: int| b <= j < n ==> is_space(#[trigger] v@[j]),
        decreases b,
    {
        b = b - 1;
    }
    proof {
        lemma_drop_trailing_at(mid, b - a);
        assert(mid.subrange(0, b - a) =~= v@.subrange(a as int, b as int));
    }
    let mut out: Vec<char> = Vec::new();
    let mut i: usize = a;
    while i < b
        invariant
            a <= i <= b <= n,
            n == v@.len(),
            out@ == v@.subrange(a as int, i as int),
        decreases b - i,
    {
        out.push(v[i]);
        proof {
            assert(out@ =~= v@.subrange(a as int, i + 1 as int));
        }
        i = i + 1;
    }
    out
}

/// Collapses whitespace under the width-aware policy: a run whose two
/// neighbours are both full-width disappears, any other run becomes one
/// space, and the result is trimmed.
pub fn collapse_fullwidth_spaces(s: &str) -> (r: String)
    ensures
        r@ == collapse_fullwidth(s@),
{
    let v = chars_of(s);
    let n = v.len();
    let mut acc: Vec<char> = Vec::new();
    let mut prev: Option<char> = None;
    let mut i: usize = 0;
    proof {
        assert(acc@ + collapse_runs(v@, 0, None) =~= collapse_runs(v@, 0, None));
    }
    while i < n
        invariant
            n == v@.len(),
            i <= n,
            collapse_runs(v@, 0, None) == acc@ + collapse_runs(v@, i as int, prev),
        decreases n - i,
    {
        let c = v[i];
        let ghost old_acc = acc@;
        if !space_char(c) {
            acc.push(c);
            proof {
                assert(collapse_runs(v@, i as int, prev) == seq![c] + collapse_runs(
                    v@,
                    i + 1 as int,
                    Some(c),
                ));
                assert(old_acc + (seq![c] + collapse_runs(v@, i + 1 as int, Some(c))) =~= acc@
                    + collapse_runs(v@, i + 1 as int, Some(c)));
            }
            prev = Some(c);
            i = i + 1;
        } else {
            let mut j: usize = i;
            while j < n && space_char(v[j])
                invariant
                    n == v@.len(),
                    i <= j <= n,
                    forall|k: int| i <= k < j ==> is_space(#[trigger] v@[k]),
                decreases n - j,
            {
                j = j + 1;
            }
            proof {
                lemma_span_spaces_at(v@, i as int, j as int);
            }
            let both_fullwidth = match prev {
                Some(p) => fullwidth_char(p) && j < n && fullwidth_char(v[j]),
                None => false,
            };
            let ghost kept: Seq<char> = if both_fullwidth {
                Seq::empty()
            } else {
                seq![' ']
            };
            if !both_fullwidth {
                acc.push(' ');
            }
            proof {
                assert(collapse_runs(v@, i as int, prev) == kept + collapse_runs(
                    v@,
                    j as int,
                    prev,
                ));
                assert(acc@ =~= old_acc + kept);
                assert(old_acc + (kept + collapse_runs(v@, j as int, prev)) =~= acc@
                    + collapse_runs(v@, j as int, prev));
            }
            i = j;
        }
    }
    proof {
        assert(acc@ + collapse_runs(v@, n as int, prev) =~= acc@);
    }
    let trimmed = trim_chars(&acc);
    string_from_chars(&trimmed)
}

/// Text as the width-aware policy leaves it: every whitespace character is
/// a single plain space, no two spaces adjoin, no space stands between two
/// full-width characters, and none stands at either end.
pub open spec fn ws_collapsed(t: Seq<char>) -> bool {
    &&& forall|k: int| 0 <= k < t.len() && is_space(#[trigger] t[k]) ==> t[k] == ' '
    &&& forall|k: int| 0 <= k < t.len() - 1 && #[trigger] t[k] == ' ' ==> !is_space(t[k + 1])
    &&& forall|k: int|
        0 < k < t.len() - 1 && #[trigger] t[k] == ' ' ==> !(is_fullwidth(t[k - 1])
            && is_fullwidth(t[k + 1]))
    &&& t.len() > 0 ==> t[0] != ' ' && t.last() != ' '
}

proof fn lemma_collapse_runs_shape(s: Seq<char>, i: int, prev: Option<char>)
    requires
        0 <= i <= s.len(),
        prev is Some ==> !is_space(prev->0),
    ensures
        ({
            let r = collapse_runs(s, i, prev);
            &&& forall|k: int| 0 <= k < r.len() && is_space(#[trigger] r[k]) ==> r[k] == ' '
            &&& forall|k: int|
                0 <= k < r.len() - 1 && #[trigger] r[k] == ' ' ==> !is_space(r[k + 1])
            &&& forall|k: int|
                0 < k < r.len() - 1 && #[trigger] r[k] == ' ' ==> !(is_fullwidth(r[k - 1])
                    && is_fullwidth(r[k + 1]))
            &&& (r.len() > 1 && r[0] == ' ' ==> !(prev is Some && is_fullwidth(prev->0)
                && is_fullwidth(r[1])))
        }),
    decreases s.len() - i,
{
    let r = collapse_runs(s, i, prev);
    if i >= s.len() {
    } else if !is_space(s[i]) {
        lemma_collapse_runs_shape(s, i + 1, Some(s[i]));
        let rr = collapse_runs(s, i + 1, Some(s[i]));
        assert(r == seq![s[i]] + rr);
        assert(r[0] == s[i]);
        assert(forall|k: int| 1 <= k < r.len() ==> r[k] == rr[k - 1]);
        assert forall|k: int|
            0 < k < r.len() - 1 && #[trigger] r[k] == ' ' implies !(is_fullwidth(r[k - 1])
            && is_fullwidth(r[k + 1])) by {
            if k == 1 {
                assert(rr[0] == ' ');
                assert(rr.len() > 1);
                assert(!(is_fullwidth(s[i]) && is_fullwidth(rr[1])));
                assert(r[0] == s[i] && r[2] == rr[1]);
            } else {
                assert(rr[k - 1] == ' ' && 0 < k - 1 < rr.len() - 1);
                assert(r[k - 1] == rr[k - 2] && r[k + 1] == rr[k]);
            }
        }
    } else {
        lemma_span_spaces_bounds(s, i);
        let j = span_spaces(s, i);
        lemma_collapse_runs_shape(s, j, prev);
        let rr = collapse_runs(s, j, prev);
        let next: Option<char> = if j < s.len() {
            Some(s[j])
        } else {
            None
        };
        if prev is Some && is_fullwidth(prev->0) && next is Some && is_fullwidth(next->0) {
            assert(r == Seq::<char>::empty() + rr);
            assert(r =~= rr);
        } else {
            assert(r == seq![' '] + rr);
            assert(r[0] == ' ');
            assert(forall|k: int| 1 <= k < r.len() ==> r[k] == rr[k - 1]);
            if j < s.len() {
                assert(!is_space(s[j]));
                assert(rr == seq![s[j]] + collapse_runs(s, j + 1, Some(s[j])));
                assert(rr[0] == s[j]);
            } else {
                assert(rr =~= Seq::<char>::empty());
            }
            assert forall|k: int|
                0 <= k < r.len() - 1 && #[trigger] r[k] == ' ' implies !is_space(r[k + 1]) by {
                if k == 0 {
                    assert(r[1] == rr[0] && !is_space(rr[0]));
                } else {
                    assert(rr[k - 1] == ' ' && k - 1 < rr.len() - 1);
                    assert(r[k + 1] == rr[k]);
                }
            }
            assert forall|k: int|
                0 < k < r.len() - 1 && #[trigger] r[k] == ' ' implies !(is_fullwidth(r[k - 1])
                && is_fullwidth(r[k + 1])) by {
                assert(rr[k - 1] == ' ');
                assert(k - 1 > 0) by {
                    if k == 1 {
                        assert(rr[0] == s[j] && !is_space(s[j]));
                    }
                }
                assert(0 < k - 1 < rr.len() - 1);
                assert(r[k - 1] == rr[k - 2] && r[k + 1] == rr[k]);
            }
        }
    }
}

proof fn lemma_trim_shape(r: Seq<char>)
    requires
        forall|k: int| 0 <= k < r.len() && is_space(#[trigger] r[k]) ==> r[k] == ' ',
        forall|k: int| 0 <= k < r.len() - 1 && #[trigger] r[k] == ' ' ==> !is_space(r[k + 1]),
        forall|k: int|
            0 < k < r.len() - 1 && #[trigger] r[k] == ' ' ==> !(is_fullwidth(r[k - 1])
                && is_fullwidth(r[k + 1])),
    ensures
        ws_collapsed(trim_spaces(r)),
{
    let a0: int = if r.len() > 0 && is_space(r[0]) {
        1int
    } else {
        0int
    };
    lemma_drop_leading_at(r, a0);
    let dl = drop_leading_spaces(r);
    assert(dl =~= r.subrange(a0, r.len() as int));
    let e: int = if dl.len() > 0 && is_space(dl.last()) {
        r.len() - 1
    } else {
        r.len() as int
    };
    if dl.len() > 0 && is_space(dl.last()) {
        assert(dl.last() == r[r.len() - 1]);
        assert(dl.len() - 1 == 0 || !is_space(dl[dl.len() - 2])) by {
            if dl.len() > 1 && r[r.len() - 2] == ' ' {
                assert(!is_space(r[r.len() - 1]));
            }
        }
        lemma_drop_trailing_at(dl, dl.len() - 1);
    } else {
        lemma_drop_trailing_at(dl, dl.len() as int);
    }
    let t = trim_spaces(r);
    assert(t =~= r.subrange(a0, e));
    assert forall|k: int| 0 <= k < t.len() && is_space(#[trigger] t[k]) implies t[k] == ' ' by {
        assert(t[k] == r[a0 + k]);
    }
    assert forall|k: int| 0 <= k < t.len() - 1 && #[trigger] t[k] == ' ' implies !is_space(
        t[k + 1],
    ) by {
        assert(t[k] == r[a0 + k] && t[k + 1] == r[a0 + k + 1]);
    }
    assert forall|k: int|
        0 < k < t.len() - 1 && #[trigger] t[k] == ' ' implies !(is_fullwidth(t[k - 1])
        && is_fullwidth(t[k + 1])) by {
        assert(t[k] == r[a0 + k] && t[k - 1] == r[a0 + k - 1] && t[k + 1] == r[a0 + k + 1]);
        assert(0 < a0 + k < r.len() - 1);
    }
    if t.len() > 0 {
        assert(t[0] == r[a0]);
        assert(t.last() == r[e - 1]);
        assert(t[0] != ' ') by {
            if a0 == 1 && r[1] == ' ' {
                assert(r[0] == ' ' && !is_space(r[1]));
            }
        }
        assert(t.last() != ' ') by {
            if e < r.len() && r[e - 1] == ' ' {
                assert(!is_space(r[e]));
                assert(is_space(r[r.len() - 1]));
            }
        }
    }
}

proof fn lemma_collapsed_fixpoint(t: Seq<char>, i: int, prev: Option<char>)
    requires
        ws_collapsed(t),
        0 <= i <= t.len(),
        i < t.len() && is_space(t[i]) ==> i > 0 && prev == Some(t[i - 1]) && !is_space(t[i - 1]),
    ensures
        collapse_runs(t, i, prev) == t.subrange(i, t.len() as int),
    decreases t.len() - i,
{
    if i >= t.len() {
        assert(t.subrange(i, t.len() as int) =~= Seq::<char>::empty());
    } else if !is_space(t[i]) {
        lemma_collapsed_fixpoint(t, i + 1, Some(t[i]));
        assert(seq![t[i]] + t.subrange(i + 1, t.len() as int) =~= t.subrange(
            i,
            t.len() as int,
        ));
    } else {
        assert(t[i] == ' ');
        assert(i < t.len() - 1) by {
            if i == t.len() - 1 {
                assert(t.last() == t[i]);
            }
        }
        assert(!is_space(t[i + 1]));
        lemma_span_spaces_at(t, i, i + 1);
        assert(!(is_fullwidth(t[i - 1]) && is_fullwidth(t[i + 1])));
        lemma_collapsed_fixpoint(t, i + 1, prev);
        assert(seq![' '] + t.subrange(i + 1, t.len() as int) =~= t.subrange(i, t.len() as int));
    }
}

/// Idempotence of the width-aware policy: its output is already in
/// collapsed form, so collapsing a second time changes nothing.
pub proof fn lemma_collapse_fullwidth_idempotent(s: Seq<char>)
    ensures
        collapse_fullwidth(collapse_fullwidth(s)) == collapse_fullwidth(s),
{
    lemma_collapse_runs_shape(s, 0, None);
    lemma_trim_shape(collapse_runs(s, 0, None));
    let t = collapse_fullwidth(s);
    if t.len() > 0 {
        assert(!is_space(t[0]));
        assert(!is_space(t.last()));
    }
    lemma_collapsed_fixpoint(t, 0, None);
    assert(t.subrange(0, t.len() as int) =~= t);
}

pub fn str_eq(a: &str, b: &str) -> (r: bool)
    ensures
        r == (a@ == b@),
{
    let na = a.unicode_len();
    let nb = b.unicode_len();
    if na != nb {
        proof {
            assert(a@ != b@);
        }
        return false;
    }
    let mut i: usize = 0;
    while i < na
        invariant
            na == a@.len() && na == b@.len(),
            i <= na,
            forall|j: int| 0 <= j < i ==> a@[j] == b@[j],
        decreases na - i,
    {
        if a.get_char(i) != b.get_char(i) {
            return false;
        }
        i = i + 1;
    }
    proof {
        assert(a@ =~= b@);
    }
    true
}

/// How many times `c` occurs in `s`.
pub open spec fn count_char(s: Seq<char>, c: char) -> nat
    decreases s.len(),
{
    if s.len() == 0 {
        0
    } else {
        count_char(s.drop_last(), c) + (if s.last() == c {
            1nat
        } else {
            0nat
        })
    }
}

pub fn count_char_in(s: &str, c: char) -> (r: usize)
    ensures
        r == count_char(s@, c),
{
    let v = chars_of(s);
    let mut count: usize = 0;
    let mut i: usize = 0;
    proof {
        assert(v@.subrange(0, 0) =~= Seq::<char>::empty());
    }
    while i < v.len()
        invariant
            i <= v@.len(),
            count == count_char(v@.subrange(0, i as int), c),
            count <= i,
        decreases v@.len() - i,
    {
        proof {
            let pre = v@.subrange(0, i + 1 as int);
            assert(pre.drop_last() =~= v@.subrange(0, i as int));
            assert(pre.last() == v@[i as int]);
        }
        if v[i] == c {
            count = count + 1;
        }
        i = i + 1;
    }
    proof {
        assert(v@.subrange(0, v@.len() as int) =~= v@);
    }
    count
}

/// True when the text opens with an image marker `![`.
pub open spec fn starts_with_image(s: Seq<char>) -> bool {
    s.len() >= 2 && s[0] == '!' && s[1] == '['
}

pub fn has_image_prefix(s: &str) -> (r: bool)
    ensures
        r == starts_with_image(s@),
{
    s.unicode_len() >= 2 && s.get_char(0) == '!' && s.get_char(1) == '['
}

/// The pipe heuristic: text that holds at least two `|` characters and does
/// not open with an image marker is taken for a table that failed to parse
/// as one.
pub open spec fn is_table_text(s: Seq<char>) -> bool {
    count_char(s, '|') >= 2 && !starts_with_image(s)
}

pub fn table_like_text(s: &str) -> (r: bool)
    ensures
        r == is_table_text(s@),
{
    count_char_in(s, '|') >= 2 && !has_image_prefix(s)
}

/// `n` copies of `c`.
pub open spec fn repeat_char(c: char, n: nat) -> Seq<char> {
    Seq::new(n, |i: int| c)
}

pub fn push_repeated(out: &mut String, c: char, n: usize)
    ensures
        final(out)@ == old(out)@ + repeat_char(c, n as nat),
{
    let mut i: usize = 0;
    while i < n
        invariant
            i <= n,
            out@ == old(out)@ + repeat_char(c, i as nat),
        decreases n - i,
    {
        push_char(out, c);
        proof {
            assert(old(out)@ + repeat_char(c, i as nat + 1) =~= (old(out)@ + repeat_char(
                c,
                i as nat,
            )).push(c));
        }
        i = i + 1;
    }
}

/// The parts joined by `sep`: nothing between zero parts, no separator
/// around a single part.
pub open spec fn join_with(parts: Seq<Seq<char>>, sep: Seq<char>) -> Seq<char>
    decreases parts.len(),
{
    if parts.len() == 0 {
        Seq::empty()
    } else if parts.len() == 1 {
        parts[0]
    } else {
        join_with(parts.drop_last(), sep) + sep + parts.last()
    }
}

/// The index of the first `'\n'` in `s` at or after `i`, or `s.len()`.
pub open spec fn find_newline(s: Seq<char>, i: int) -> int
    decreases s.len() - i,
{
    if i < 0 || i >= s.len() {
        s.len() as int
    } else if s[i] == '\n' {
        i
    } else {
        find_newline(s, i + 1)
    }
}

proof fn lemma_find_newline_bounds(s: Seq<char>, i: int)
    requires
        0 <= i <= s.len(),
    ensures
        i <= find_newline(s, i) <= s.len(),
    decreases s.len() - i,
{
    if i < s.len() && s[i] != '\n' {
        lemma_find_newline_bounds(s, i + 1);
    }
}

proof fn lemma_find_newline_at(s: Seq<char>, k: int)
    requires
        0 <= k <= s.len(),
        forall|j: int| 0 <= j < k ==> s[j] != '\n',
        k == s.len() || s[k] == '\n',
    ensures
        find_newline(s, 0) == k,
{
    lemma_find_newline_from(s, 0, k);
}

proof fn lemma_find_newline_from(s: Seq<char>, i: int, k: int)
    requires
        0 <= i <= k <= s.len(),
        forall|j: int| i <= j < k ==> s[j] != '\n',
        k == s.len() || s[k] == '\n',
    ensures
        find_newline(s, i) == k,
    decreases k - i,
{
    if i < k {
        lemma_find_newline_from(s, i + 1, k);
    }
}

/// A line stripped of the carriage return that a `\r\n` ending leaves.
pub open spec fn chop_cr(line: Seq<char>) -> Seq<char> {
    if line.len() > 0 && line.last() == '\r' {
        line.drop_last()
    } else {
        line
    }
}

/// The lines of `s`: pieces split at `'\n'` (a preceding `'\r'` is dropped
/// with it), with no empty final line when the text ends in `'\n'`.
pub open spec fn lines_of(s: Seq<char>) -> Seq<Seq<char>>
    decreases s.len(),
    via lines_of_decreases
{
    if s.len() == 0 {
        Seq::empty()
    } else {
        let j = find_newline(s, 0);
        if j == s.len() {
            seq![s]
        } else {
            seq![chop_cr(s.subrange(0, j))] + lines_of(s.subrange(j + 1, s.len() as int))
        }
    }
}

#[via_fn]
proof fn lines_of_decreases(s: Seq<char>) {
    if s.len() > 0 {
        lemma_find_newline_bounds(s, 0);
    }
}

/// The lines of `s`, one string per line.
pub fn split_lines(s: &str) -> (r: Vec<String>)
    ensures
        r.deep_view() == lines_of(s@),
{
    let v = chars_of(s);
    let n = v.len();
    let mut out: Vec<String> = Vec::new();
    let mut i: usize = 0;
    proof {
        assert(v@.subrange(0, n as int) =~= v@);
        assert(out.deep_view() =~= Seq::<Seq<char>>::empty());
    }
    while i < n
        invariant
            n == v@.len(),
            i <= n,
            lines_of(v@) == out.deep_view() + lines_of(v@.subrange(i as int, n as int)),
        decreases n - i,
    {
        let ghost rest = v@.subrange(i as int, n as int);
        let ghost old_out = out.deep_view();
        let mut j: usize = i;
        while j < n && v[j] != '\n'
            invariant
                n == v@.len(),
                i <= j <= n,
                forall|k: int| i <= k < j ==> v@[k] != '\n',
            decreases n - j,
        {
            j = j + 1;
        }
        proof {
            assert(forall|k: int| 0 <= k < j - i ==> rest[k] == v@[i + k]);
            lemma_find_newline_at(rest, j - i);
        }
        let stop = if j < n && j > i && v[j - 1] == '\r' {
            j - 1
        } else {
            j
        };
        let mut piece: Vec<char> = Vec::new();
        let mut k: usize = i;
        while k < stop
            invariant
                i <= k <= stop <= n,
                n == v@.len(),
                piece@ == v@.subrange(i as int, k as int),
            decreases stop - k,
        {
            piece.push(v[k]);
            proof {
                assert(piece@ =~= v@.subrange(i as int, k + 1 as int));
            }
            k = k + 1;
        }
        proof {
            assert(rest.subrange(0, j - i) =~= v@.subrange(i as int, j as int));
            if j < n {
                assert(chop_cr(rest.subrange(0, j - i)) =~= piece@);
                assert(rest.subrange(j - i + 1, rest.len() as int) =~= v@.subrange(
                    j + 1 as int,
                    n as int,
                ));
                assert(lines_of(rest) == seq![piece@] + lines_of(
                    v@.subrange(j + 1 as int, n as int),
                ));
            } else {
                assert(piece@ =~= rest);
                assert(lines_of(rest) == seq![piece@]);
            }
        }
        let line = string_from_chars(&piece);
        out.push(line);
        proof {
            assert(out.deep_view() =~= old_out.push(piece@));
        }
        if j == n {
            i = n;
            proof {
                assert(lines_of(v@.subrange(n as int, n as int)) =~= Seq::<Seq<char>>::empty());
                assert(old_out + lines_of(rest) =~= out.deep_view() + lines_of(
                    v@.subrange(n as int, n as int),
                ));
            }
        } else {
            i = j + 1;
            proof {
                assert(old_out + lines_of(rest) =~= out.deep_view() + lines_of(
                    v@.subrange(i as int, n as int),
                ));
            }
        }
    }
    proof {
        assert(lines_of(v@.subrange(n as int, n as int)) =~= Seq::<Seq<char>>::empty());
        assert(out.deep_view() =~= lines_of(v@));
    }
    out
}

} // verus!
