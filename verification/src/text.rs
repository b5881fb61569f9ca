//! Text helpers: decimal numbers and searches over the characters of a string.
use vstd::prelude::*;

verus! {

/// The character that writes the digit `d`.
pub open spec fn digit(d: nat) -> char
    recommends
        d < 10,
{
    ('0' as nat + d) as char
}

/// The decimal digits of `n`, the most significant one first.
pub open spec fn decimal(n: nat) -> Seq<char>
    decreases n,
{
    if n < 10 {
        seq![digit(n)]
    } else {
        decimal(n / 10).push(digit(n % 10))
    }
}

/// Whether `part` occurs in `text` as a run of characters.
pub open spec fn has_part(text: Seq<char>, part: Seq<char>) -> bool {
    exists|i: int| #[trigger] part_at(text, part, i)
}

/// Whether `part` stands in `text` from position `i` on.
pub open spec fn part_at(text: Seq<char>, part: Seq<char>, i: int) -> bool {
    0 <= i && i + part.len() <= text.len() && text.subrange(i, i + part.len()) == part
}

/// The texts in a list of strings.
pub open spec fn texts(list: Seq<String>) -> Seq<Seq<char>> {
    list.map_values(|text: String| text@)
}

/// The text of a single digit.
fn digit_text(d: u64) -> (text: &'static str)
    requires
        d < 10,
    ensures
        text@ == seq![digit(d as nat)],
{
    proof {
        reveal_strlit("0");
        reveal_strlit("1");
        reveal_strlit("2");
        reveal_strlit("3");
        reveal_strlit("4");
        reveal_strlit("5");
        reveal_strlit("6");
        reveal_strlit("7");
        reveal_strlit("8");
        reveal_strlit("9");
    }
    match d {
        0 => "0",
        1 => "1",
        2 => "2",
        3 => "3",
        4 => "4",
        5 => "5",
        6 => "6",
        7 => "7",
        8 => "8",
        _ => "9",
    }
}

/// Write `n` in decimal.
pub fn to_decimal(n: u64) -> (text: String)
    ensures
        text@ == decimal(n as nat),
    decreases n,
{
    if n < 10 {
        digit_text(n).to_string()
    } else {
        let mut text = to_decimal(n / 10);
        text.append(digit_text(n % 10));
        text
    }
}

/// The characters of `text`, in order.
pub fn to_chars(text: &str) -> (chars: Vec<char>)
    ensures
        chars@ == text@,
{
    let mut chars: Vec<char> = Vec::new();
    for c in it: text.chars()
        invariant
            it.seq() == text@,
            chars@ == text@.take(it.index() as int),
    {
        chars.push(c);
    }
    chars
}

/// Whether `c` occurs in `text`.
pub fn contains_char(text: &str, c: char) -> (found: bool)
    ensures
        found == text@.contains(c),
{
    for x in it: text.chars()
        invariant
            it.seq() == text@,
            forall|j: int| 0 <= j < it.index() ==> text@[j] != c,
    {
        if x == c {
            return true;
        }
    }
    false
}

/// Whether `part` occurs in `text` as a run of characters.
pub fn contains_text(text: &str, part: &str) -> (found: bool)
    ensures
        found == has_part(text@, part@),
{
    let chars = to_chars(text);
    let wanted = to_chars(part);
    if wanted.len() > chars.len() {
        return false;
    }
    let last: usize = chars.len() - wanted.len();
    let mut i: usize = 0;
    while i <= last
        invariant
            chars@ == text@,
            wanted@ == part@,
            last == chars.len() - wanted.len(),
            i <= last + 1,
            forall|k: int| 0 <= k < i ==> !part_at(text@, part@, k),
        decreases last + 1 - i,
    {
        let mut j: usize = 0;
        while j < wanted.len() && chars[i + j] == wanted[j]
            invariant
                chars@ == text@,
                wanted@ == part@,
                last == chars.len() - wanted.len(),
                i <= last,
                j <= wanted.len(),
                forall|k: int| 0 <= k < j ==> #[trigger] part@[k] == text@[i + k],
            decreases wanted@.len() - j,
        {
            j += 1;
        }
        if j == wanted.len() {
            assert(text@.subrange(i as int, i + part@.len()) =~= part@);
            assert(part_at(text@, part@, i as int));
            return true;
        }
        assert(!part_at(text@, part@, i as int)) by {
            assert(text@.subrange(i as int, i + part@.len())[j as int] == text@[i + j]);
        }
        i += 1;
    }
    false
}

/// The number that a text of digits stands for.
pub open spec fn number(text: Seq<char>) -> nat
    decreases text.len(),
{
    if text.len() == 0 {
        0
    } else {
        (10 * number(text.drop_last()) + (text.last() as int - 0x30)) as nat
    }
}

/// Whether a text is a number as one writes it: digits, at least one, and no zero
/// in front of others.
pub open spec fn is_number(text: Seq<char>) -> bool {
    &&& text.len() > 0
    &&& forall|i: int| 0 <= i < text.len() ==> 0x30 <= #[trigger] text[i] as int <= 0x39
    &&& text.len() > 1 ==> text[0] as int != 0x30
}

/// Whether a text consists of `before`, the number `n` and `after`.
pub open spec fn tells(text: Seq<char>, before: Seq<char>, n: nat, after: Seq<char>) -> bool {
    exists|digits: Seq<char>| #[trigger]
        is_number(digits) && number(digits) == n && text == before + digits + after
}

/// A number written in decimal reads back as the number.
pub proof fn law_decimal_reads_back(n: nat)
    ensures
        is_number(decimal(n)),
        number(decimal(n)) == n,
    decreases n,
{
    let text = decimal(n);
    if n < 10 {
        assert(text.drop_last() =~= Seq::empty());
        assert(number(text.drop_last()) == 0);
    } else {
        let front = decimal(n / 10);
        law_decimal_reads_back(n / 10);
        assert(text.drop_last() =~= front);
        assert(text[0] == front[0]);
        assert forall|i: int| 0 <= i < text.len() implies 0x30 <= #[trigger] text[i] as int
            <= 0x39 by {
            if i < front.len() {
                assert(text[i] == front[i]);
            }
        }
        if front[0] as int == 0x30 {
            assert(front.len() == 1);
            assert(front.drop_last() =~= Seq::empty());
            assert(number(front.drop_last()) == 0);
            assert(number(front) == 0);
        }
    }
}

/// Different numbers are written differently.
pub proof fn law_decimals_differ(m: nat, n: nat)
    ensures
        decimal(m) == decimal(n) ==> m == n,
{
    law_decimal_reads_back(m);
    law_decimal_reads_back(n);
}

/// A text around a number written in decimal tells the number.
pub(crate) proof fn lemma_tells(before: Seq<char>, n: nat, after: Seq<char>)
    ensures
        tells(before + decimal(n) + after, before, n, after),
{
    law_decimal_reads_back(n);
    assert(is_number(decimal(n)));
}

/// A part occurs in a text exactly if the text is something, the part, and
/// something.
pub proof fn law_part_is_found(front: Seq<char>, part: Seq<char>, back: Seq<char>, text: Seq<char>)
    ensures
        has_part(front + part + back, part),
        has_part(text, part) ==> exists|a: Seq<char>, b: Seq<char>| #[trigger]
            (a + part + b) == text,
{
    let whole = front + part + back;
    assert(whole.subrange(front.len() as int, (front + part).len() as int) =~= part);
    assert(part_at(whole, part, front.len() as int));
    if has_part(text, part) {
        let i = choose|i: int| part_at(text, part, i);
        let a = text.take(i);
        let b = text.skip(i + part.len());
        assert(a + part + b =~= text);
    }
}

} // verus!
