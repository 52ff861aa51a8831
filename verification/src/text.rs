//! Text: trimming, joining, decoding, and numbers in decimal.
use vstd::prelude::*;

verus! {

/// Whether a character is white space, as Unicode has it.
pub open spec fn is_white(c: char) -> bool {
    let n = c as u32;
    ||| 0x9 <= n <= 0xd
    ||| n == 0x20
    ||| n == 0x85
    ||| n == 0xa0
    ||| n == 0x1680
    ||| 0x2000 <= n <= 0x200a
    ||| n == 0x2028
    ||| n == 0x2029
    ||| n == 0x202f
    ||| n == 0x205f
    ||| n == 0x3000
}

/// `s` from its first character on that is no white space.
pub open spec fn without_leading(s: Seq<char>) -> Seq<char>
    decreases s.len(),
{
    if s.len() > 0 && is_white(s[0]) {
        without_leading(s.skip(1))
    } else {
        s
    }
}

/// `s` up to its last character that is no white space.
pub open spec fn without_trailing(s: Seq<char>) -> Seq<char>
    decreases s.len(),
{
    if s.len() > 0 && is_white(s.last()) {
        without_trailing(s.drop_last())
    } else {
        s
    }
}

/// `s` without white space at its ends.
pub open spec fn trimmed(s: Seq<char>) -> Seq<char> {
    without_trailing(without_leading(s))
}

/// Whether `s` has no white space at its ends.
pub open spec fn is_trimmed(s: Seq<char>) -> bool {
    s.len() > 0 ==> !is_white(s[0]) && !is_white(s.last())
}

/// The texts that are not empty, one after the other, with a blank between any
/// two.
pub open spec fn joined(texts: Seq<Seq<char>>) -> Seq<char>
    decreases texts.len(),
{
    if texts.len() == 0 {
        Seq::empty()
    } else {
        let front = joined(texts.drop_last());
        let text = texts.last();
        if text.len() == 0 {
            front
        } else if front.len() == 0 {
            text
        } else {
            front.push(' ') + text
        }
    }
}

/// The trimmed texts of a sequence in which some may be missing.
pub open spec fn texts_of(segments: Seq<Option<String>>) -> Seq<Seq<char>> {
    segments.map_values(
        |segment: Option<String>|
            match segment {
                Some(text) => trimmed(text@),
                None => Seq::empty(),
            },
    )
}

/// What `String::from_utf8_lossy` makes of some bytes.
pub uninterp spec fn utf8_lossy(bytes: Seq<u8>) -> Seq<char>;

/// The text in some bytes, by `String::from_utf8_lossy`.  Its result depends on
/// the bytes alone, and is given a name; the contract says besides that bytes
/// that are valid UTF-8 are decoded as such.  Which characters stand for other
/// bytes is not said.
#[verifier::external_body]
pub(crate) fn decode_lossy(bytes: &[u8]) -> (text: String)
    ensures
        text@ == utf8_lossy(bytes@),
        vstd::utf8::valid_utf8(bytes@) ==> text@ == vstd::utf8::decode_utf8(bytes@),
{
    String::from_utf8_lossy(bytes).into_owned()
}

/// Whether a character is white space.
pub fn is_whitespace(c: char) -> (r: bool)
    ensures
        r == is_white(c),
{
    let n: u32 = c as u32;
    (0x9 <= n && n <= 0xd) || n == 0x20 || n == 0x85 || n == 0xa0 || n == 0x1680 || (0x2000 <= n
        && n <= 0x200a) || n == 0x2028 || n == 0x2029 || n == 0x202f || n == 0x205f || n == 0x3000
}

/// `s` without white space at its ends.
pub fn trim(s: &str) -> (r: String)
    ensures
        r@ == trimmed(s@),
{
    let count: usize = s.unicode_len();
    let mut start: usize = 0;
    assert(s@.skip(0) =~= s@);
    while start < count && is_whitespace(s.get_char(start))
        invariant
            0 <= start <= count == s@.len(),
            without_leading(s@) == without_leading(s@.skip(start as int)),
        decreases count - start,
    {
        assert(s@.skip(start as int)[0] == s@[start as int]);
        assert(s@.skip(start as int).skip(1) =~= s@.skip(start + 1));
        start = start + 1;
    }
    let ghost rest = s@.skip(start as int);
    proof {
        if start < count {
            assert(rest[0] == s@[start as int]);
        }
        assert(without_leading(s@) == rest);
        assert(rest.take(rest.len() as int) =~= rest);
    }
    let mut end: usize = count;
    while end > start && is_whitespace(s.get_char(end - 1))
        invariant
            0 <= start <= end <= count == s@.len(),
            rest == s@.skip(start as int),
            without_trailing(rest) == without_trailing(rest.take(end - start)),
        decreases end,
    {
        assert(rest.take(end - start).last() == s@[end - 1]);
        assert(rest.take(end - start).drop_last() =~= rest.take(end - start - 1));
        end = end - 1;
    }
    proof {
        if end > start {
            assert(rest.take(end - start).last() == s@[end - 1]);
        }
        assert(rest.take(end - start) =~= s@.subrange(start as int, end as int));
    }
    s.substring_char(start, end).to_owned()
}

/// The trimmed texts that are not empty, joined with blanks; nothing where all
/// are empty.
pub fn join_segments(segments: &Vec<Option<String>>) -> (r: Option<String>)
    ensures
        r is Some <==> joined(texts_of(segments@)).len() > 0,
        r matches Some(text) ==> text@ == joined(texts_of(segments@)),
{
    let ghost texts = texts_of(segments@);
    let mut result: String = String::new();
    let mut i: usize = 0;
    assert(texts.take(0) =~= Seq::empty());
    while i < segments.len()
        invariant
            0 <= i <= segments@.len(),
            texts == texts_of(segments@),
            result@ == joined(texts.take(i as int)),
        decreases segments@.len() - i,
    {
        assert(texts.take(i + 1).drop_last() =~= texts.take(i as int));
        assert(texts.take(i + 1).last() == texts[i as int]);
        if let Some(segment) = &segments[i] {
            let text: String = trim(segment.as_str());
            if !text.as_str().is_empty() {
                if !result.as_str().is_empty() {
                    proof {
                        reveal_strlit(" ");
                    }
                    let ghost before = result@;
                    result.append(" ");
                    assert(result@ =~= before.push(' '));
                }
                result.append(text.as_str());
                assert(result@ =~= joined(texts.take(i + 1)));
            }
        }
        i = i + 1;
    }
    assert(texts.take(texts.len() as int) =~= texts);
    if result.as_str().is_empty() {
        None
    } else {
        Some(result)
    }
}

/// A trimmed text has no white space at its ends, lies within the text it was
/// made of, and trimming it again changes nothing.
pub proof fn lemma_trimmed(s: Seq<char>)
    ensures
        is_trimmed(trimmed(s)),
        trimmed(trimmed(s)) == trimmed(s),
        exists|i: int, j: int|
            0 <= i <= j <= s.len() && #[trigger] s.subrange(i, j) == trimmed(s) && (forall|k: int|
                (0 <= k < i || j <= k < s.len()) ==> is_white(#[trigger] s[k])),
{
    let i = lemma_without_leading(s);
    let t = without_leading(s);
    let j = lemma_without_trailing(t);
    assert(s.subrange(i, i + j) =~= trimmed(s));
    assert forall|k: int| (0 <= k < i || i + j <= k < s.len()) implies is_white(
        #[trigger] s[k],
    ) by {
        if k >= i + j {
            assert(t[k - i] == s[k]);
        }
    }
    if trimmed(s).len() > 0 {
        assert(trimmed(s)[0] == t[0]);
    }
}

proof fn lemma_without_leading(s: Seq<char>) -> (i: int)
    ensures
        0 <= i <= s.len(),
        without_leading(s) == s.skip(i),
        i < s.len() ==> !is_white(s[i]),
        forall|k: int| 0 <= k < i ==> is_white(#[trigger] s[k]),
    decreases s.len(),
{
    if s.len() > 0 && is_white(s[0]) {
        let j = lemma_without_leading(s.skip(1));
        assert(s.skip(1).skip(j) =~= s.skip(j + 1));
        assert forall|k: int| 0 <= k < j + 1 implies is_white(#[trigger] s[k]) by {
            if k > 0 {
                assert(s.skip(1)[k - 1] == s[k]);
            }
        }
        if j + 1 < s.len() {
            assert(s.skip(1)[j] == s[j + 1]);
        }
        j + 1
    } else {
        assert(s.skip(0) =~= s);
        0
    }
}

proof fn lemma_without_trailing(s: Seq<char>) -> (j: int)
    ensures
        0 <= j <= s.len(),
        without_trailing(s) == s.take(j),
        j > 0 ==> !is_white(s[j - 1]),
        forall|k: int| j <= k < s.len() ==> is_white(#[trigger] s[k]),
    decreases s.len(),
{
    if s.len() > 0 && is_white(s.last()) {
        let j = lemma_without_trailing(s.drop_last());
        assert(s.drop_last().take(j) =~= s.take(j));
        assert forall|k: int| j <= k < s.len() implies is_white(#[trigger] s[k]) by {
            if k < s.len() - 1 {
                assert(s.drop_last()[k] == s[k]);
            }
        }
        if j > 0 {
            assert(s.drop_last()[j - 1] == s[j - 1]);
        }
        j
    } else {
        assert(s.take(s.len() as int) =~= s);
        s.len() as int
    }
}

/// Texts without white space at their ends are joined into such a text:
/// trimming the result changes nothing.
pub proof fn lemma_joined_is_trimmed(texts: Seq<Seq<char>>)
    requires
        forall|i: int| 0 <= i < texts.len() ==> is_trimmed(#[trigger] texts[i]),
    ensures
        is_trimmed(joined(texts)),
        trimmed(joined(texts)) == joined(texts),
    decreases texts.len(),
{
    if texts.len() > 0 {
        let before = texts.drop_last();
        assert forall|i: int| 0 <= i < before.len() implies is_trimmed(#[trigger] before[i]) by {
            assert(before[i] == texts[i]);
        }
        lemma_joined_is_trimmed(before);
        assert(is_trimmed(texts[texts.len() - 1]));
        let front = joined(before);
        let text = texts.last();
        if text.len() > 0 && front.len() > 0 {
            let all = front.push(' ') + text;
            assert(all[0] == front[0]);
            assert(all.last() == text.last());
        }
    }
}

/// Nothing is recognised exactly when every text is missing or holds nothing
/// but white space.
pub proof fn lemma_joined_is_empty(texts: Seq<Seq<char>>)
    ensures
        joined(texts).len() == 0 <==> forall|i: int|
            0 <= i < texts.len() ==> (#[trigger] texts[i]).len() == 0,
    decreases texts.len(),
{
    if texts.len() > 0 {
        let before = texts.drop_last();
        lemma_joined_is_empty(before);
        assert(texts[texts.len() - 1] == texts.last());
        if joined(texts).len() == 0 {
            assert forall|i: int| 0 <= i < texts.len() implies (#[trigger] texts[i]).len() == 0 by {
                if i < before.len() {
                    assert(before[i] == texts[i]);
                }
            }
        } else if forall|i: int| 0 <= i < texts.len() ==> (#[trigger] texts[i]).len() == 0 {
            assert forall|i: int| 0 <= i < before.len() implies (
            #[trigger] before[i]).len() == 0 by {
                assert(before[i] == texts[i]);
            }
        }
    }
}

/// The character of a digit.
pub open spec fn digit(d: int) -> char {
    (0x30 + d) as char
}

/// A number in decimal.
pub open spec fn decimal(n: nat) -> Seq<char>
    decreases n,
{
    if n < 10 {
        seq![digit(n as int)]
    } else {
        decimal(n / 10).push(digit(n as int % 10))
    }
}

fn digit_text(d: usize) -> (r: &'static str)
    requires
        d < 10,
    ensures
        r@ == seq![digit(d as int)],
{
    let r: &'static str = match d {
        0 => "0",
        1 => "1",
        2 => "2",
        3 => "3",
        4 => "4",
        5 => "5",
        6 => "6",
        7 => "7",
        8 => "8",
        _ => "9",
    };
    proof {
        reveal_strlit("0");
        reveal_strlit("1");
        reveal_strlit("2");
        reveal_strlit("3");
        reveal_strlit("4");
        reveal_strlit("5");
        reveal_strlit("6");
        reveal_strlit("7");
        reveal_strlit("8");
        reveal_strlit("9");
        assert(r@ =~= seq![digit(d as int)]);
    }
    r
}

/// A number in decimal.
pub fn decimal_text(n: usize) -> (r: String)
    ensures
        r@ == decimal(n as nat),
    decreases n,
{
    let mut r: String = if n < 10 {
        String::new()
    } else {
        decimal_text(n / 10)
    };
    let ghost front = r@;
    r.append(digit_text(n % 10));
    proof {
        if n < 10 {
            assert(r@ =~= decimal(n as nat));
        } else {
            assert(r@ =~= front.push(digit(n as int % 10)));
        }
    }
    r
}

/// Nothing that was recognised is lost: what joins two runs of texts is what joins the
/// first, a blank, and what joins the second, and a run that comes to nothing adds
/// nothing.  One text by itself is joined to itself.
pub proof fn lemma_joined_concatenates(a: Seq<Seq<char>>, b: Seq<Seq<char>>)
    ensures
        joined(Seq::empty()) == Seq::<char>::empty(),
        forall|t: Seq<char>| #[trigger] joined(seq![t]) == t,
        joined(a).len() == 0 ==> joined(a + b) == joined(b),
        joined(b).len() == 0 ==> joined(a + b) == joined(a),
        joined(a).len() > 0 && joined(b).len() > 0 ==> joined(a + b) == joined(a) + seq![' ']
            + joined(b),
    decreases b.len(),
{
    assert forall|t: Seq<char>| #[trigger] joined(seq![t]) == t by {
        let one = seq![t];
        assert(one.drop_last() =~= Seq::<Seq<char>>::empty());
        assert(joined(one.drop_last()) == Seq::<char>::empty());
        assert(one.last() == t);
        if t.len() == 0 {
            assert(t =~= Seq::<char>::empty());
        }
    }
    if b.len() == 0 {
        assert(a + b =~= a);
        assert(joined(b) =~= Seq::<char>::empty());
        if joined(a).len() == 0 {
            assert(joined(a) =~= joined(b));
        }
    } else {
        let front = b.drop_last();
        let text = b.last();
        lemma_joined_concatenates(a, front);
        assert((a + b).drop_last() =~= a + front);
        assert((a + b).last() == text);
        if joined(a).len() == 0 {
            assert(joined(a + b) =~= joined(b));
        }
        if joined(b).len() == 0 {
            assert(joined(front).len() == 0 && text.len() == 0);
        }
        if joined(a).len() > 0 && joined(b).len() > 0 {
            assert(joined(a + b) =~= joined(a) + seq![' '] + joined(b));
        }
    }
}

/// How many texts are not empty.
pub open spec fn texts_said(texts: Seq<Seq<char>>) -> nat
    decreases texts.len(),
{
    if texts.len() == 0 {
        0
    } else {
        texts_said(texts.drop_last()) + if texts.last().len() > 0 {
            1nat
        } else {
            0
        }
    }
}

/// What joins some texts holds each of them in full and in order, and nothing but them
/// and one blank between any two that are not empty.
pub proof fn lemma_joined_holds_all(texts: Seq<Seq<char>>, i: int)
    requires
        0 <= i < texts.len(),
        texts[i].len() > 0,
    ensures
        ({
            let all = joined(texts);
            let before = joined(texts.take(i));
            let at: int = if before.len() == 0 {
                0
            } else {
                before.len() as int + 1
            };
            &&& at + texts[i].len() <= all.len()
            &&& all.subrange(at, at + texts[i].len()) == texts[i]
            &&& all.take(before.len() as int) == before
        }),
        joined(texts).len() == joined_len(texts),
{
    let one = seq![texts[i]];
    let before = texts.take(i);
    let rest = texts.skip(i + 1);
    assert(texts =~= (before + one) + rest);
    lemma_joined_concatenates(before, one);
    lemma_joined_concatenates(before + one, rest);
    assert(joined(one) == texts[i]);
    let all = joined(texts);
    let head = joined(before + one);
    let at: int = if joined(before).len() == 0 {
        0
    } else {
        joined(before).len() as int + 1
    };
    assert(head.subrange(at, at + texts[i].len()) =~= texts[i]);
    assert(head.take(joined(before).len() as int) =~= joined(before));
    assert(all.take(head.len() as int) =~= head);
    assert(all.subrange(at, at + texts[i].len()) =~= head.subrange(
        at,
        at + texts[i].len(),
    ));
    assert(all.take(joined(before).len() as int) =~= head.take(joined(before).len() as int));
    lemma_joined_len(texts);
}

/// The length of all texts and of a blank between any two that are not empty.
pub open spec fn joined_len(texts: Seq<Seq<char>>) -> int {
    texts.flatten().len() + if texts_said(texts) == 0 {
        0
    } else {
        texts_said(texts) - 1
    }
}

/// That is how long they are joined.
pub proof fn lemma_joined_len(texts: Seq<Seq<char>>)
    ensures
        joined(texts).len() == joined_len(texts),
        texts_said(texts) == 0 <==> joined(texts).len() == 0,
    decreases texts.len(),
{
    if texts.len() > 0 {
        let front = texts.drop_last();
        lemma_joined_len(front);
        assert(texts =~= front.push(texts.last()));
        front.lemma_flatten_push(texts.last());
    } else {
        assert(texts.flatten() =~= Seq::<char>::empty());
    }
}

/// Each text that is joined is that of its own segment, without white space at its ends,
/// and there is one for each segment; one that is missing is empty.
pub proof fn lemma_texts(segments: Seq<Option<String>>, i: int)
    requires
        0 <= i < segments.len(),
    ensures
        texts_of(segments).len() == segments.len(),
        segments[i] matches Some(text) ==> texts_of(segments)[i] == trimmed(text@),
        segments[i] is None ==> texts_of(segments)[i].len() == 0,
{
}

/// The number that some digits stand for.
pub open spec fn number_of(digits: Seq<char>) -> int
    decreases digits.len(),
{
    if digits.len() == 0 {
        0
    } else {
        10 * number_of(digits.drop_last()) + (digits.last() as int - 0x30)
    }
}

/// A number in decimal is made of digits that stand for it, and does not start with a
/// zero unless it is zero.
pub proof fn lemma_decimal(n: nat)
    ensures
        number_of(decimal(n)) == n,
        decimal(n).len() > 0,
        forall|i: int|
            0 <= i < decimal(n).len() ==> 0x30 <= (#[trigger] decimal(n)[i]) as int <= 0x39,
        decimal(n)[0] == '0' ==> n == 0,
    decreases n,
{
    let digits = decimal(n);
    if n < 10 {
        assert(digits.drop_last() =~= Seq::<char>::empty());
        assert(number_of(digits.drop_last()) == 0);
        assert(digits.last() == digits[0]);
    } else {
        lemma_decimal(n / 10);
        assert(digits.drop_last() =~= decimal(n / 10));
        assert(digits[0] == decimal(n / 10)[0]);
    }
}

} // verus!
