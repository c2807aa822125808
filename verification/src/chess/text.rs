//! The text of numbers, and texts of several fields.
use vstd::prelude::*;

verus! {

/// The digit `n`.
pub open spec fn digit_char(n: nat) -> char {
    if n == 0 {
        '0'
    } else if n == 1 {
        '1'
    } else if n == 2 {
        '2'
    } else if n == 3 {
        '3'
    } else if n == 4 {
        '4'
    } else if n == 5 {
        '5'
    } else if n == 6 {
        '6'
    } else if n == 7 {
        '7'
    } else if n == 8 {
        '8'
    } else {
        '9'
    }
}

/// The number that the digit `c` stands for.
pub open spec fn digit_value(c: char) -> Option<nat> {
    if 48 <= c as u32 <= 57 {
        Some((c as u32 - 48) as nat)
    } else {
        None
    }
}

/// The decimal digits of `n`.
pub open spec fn decimal(n: nat) -> Seq<char>
    decreases n,
{
    if n < 10 {
        seq![digit_char(n)]
    } else {
        decimal(n / 10).push(digit_char(n % 10))
    }
}

/// The decimal digits of `n`, after a minus sign if it is negative.
pub open spec fn signed_decimal(n: int) -> Seq<char> {
    if n < 0 {
        seq!['-'] + decimal((-n) as nat)
    } else {
        decimal(n as nat)
    }
}

/// The number with the decimal digits `s`.
pub open spec fn digits_value(s: Seq<char>) -> Option<nat>
    decreases s.len(),
{
    if s.len() == 0 {
        Some(0)
    } else {
        match (digits_value(s.drop_last()), digit_value(s.last())) {
            (Some(v), Some(d)) => Some(10 * v + d),
            _ => None,
        }
    }
}

/// The number of sixteen bits that the text `s` is: one or more decimal digits.
pub open spec fn number_of_text(s: Seq<char>) -> Option<u16> {
    match digits_value(s) {
        Some(v) => if s.len() > 0 && v <= u16::MAX {
            Some(v as u16)
        } else {
            None
        },
        None => None,
    }
}

/// The fields with a space between each two.
pub open spec fn join(fields: Seq<Seq<char>>) -> Seq<char>
    decreases fields.len(),
{
    if fields.len() == 0 {
        Seq::empty()
    } else if fields.len() == 1 {
        fields[0]
    } else {
        fields[0] + seq![' '] + join(fields.skip(1))
    }
}

/// The place of the first space in `s` from `i` on; its length if there is none.
pub open spec fn space_from(s: Seq<char>, i: int) -> int
    decreases s.len() - i,
{
    if i >= s.len() {
        s.len() as int
    } else if s[i] == ' ' {
        i
    } else {
        space_from(s, i + 1)
    }
}

/// The fields between the spaces of `s`.
pub open spec fn split(s: Seq<char>) -> Seq<Seq<char>>
    decreases s.len(),
{
    let e = space_from(s, 0);
    if 0 <= e < s.len() {
        seq![s.take(e)] + split(s.skip(e + 1))
    } else {
        seq![s]
    }
}

/// Whether no space is in `s`.
pub open spec fn no_space(s: Seq<char>) -> bool {
    forall|i: int| 0 <= i < s.len() ==> s[i] != ' '
}

/// A number is the value of its decimal digits, none of which is a space.
pub proof fn law_decimal(n: nat)
    ensures
        digits_value(decimal(n)) == Some(n),
        decimal(n).len() > 0,
        no_space(decimal(n)),
    decreases n,
{
    if n < 10 {
        assert(decimal(n).drop_last() =~= Seq::empty());
        assert(digits_value(decimal(n).drop_last()) == Some(0nat));
    } else {
        law_decimal(n / 10);
        assert(decimal(n).drop_last() =~= decimal(n / 10));
    }
}

/// A space is found where it is.
proof fn lemma_space_from(s: Seq<char>, i: int, j: int)
    requires
        0 <= i <= j <= s.len(),
        forall|k: int| i <= k < j ==> s[k] != ' ',
        j == s.len() || s[j] == ' ',
    ensures
        space_from(s, i) == j,
    decreases j - i,
{
    if i < j {
        lemma_space_from(s, i + 1, j);
    }
}

/// Fields without a space are found again in the text that is made of them.
pub proof fn law_split_join(fields: Seq<Seq<char>>)
    requires
        fields.len() > 0,
        forall|i: int| 0 <= i < fields.len() ==> no_space(#[trigger] fields[i]),
    ensures
        split(join(fields)) == fields,
    decreases fields.len(),
{
    let s = join(fields);
    let first = fields[0];
    if fields.len() == 1 {
        lemma_space_from(s, 0, s.len() as int);
        assert(split(s) =~= fields);
    } else {
        let rest = fields.skip(1);
        assert forall|i: int| 0 <= i < rest.len() implies no_space(#[trigger] rest[i]) by {
            assert(rest[i] == fields[i + 1]);
        }
        law_split_join(rest);
        let n = first.len() as int;
        assert(s =~= first + seq![' '] + join(rest));
        lemma_space_from(s, 0, n);
        assert(s.take(n) =~= first);
        assert(s.skip(n + 1) =~= join(rest));
        assert(split(s) =~= fields);
    }
}

/// The number that the text `s` is: decimal digits, after a minus sign if it is negative.
pub open spec fn signed_value(s: Seq<char>) -> Option<int> {
    if s.len() > 0 && s[0] == '-' {
        match digits_value(s.skip(1)) {
            Some(v) => Some(-v),
            None => None,
        }
    } else {
        match digits_value(s) {
            Some(v) => Some(v as int),
            None => None,
        }
    }
}

/// The decimal digits of a number begin with zero only if it is zero.
pub proof fn law_decimal_digits(n: nat)
    ensures
        forall|i: int| 0 <= i < decimal(n).len() ==> 48 <= #[trigger] decimal(n)[i] as u32 <= 57,
        n > 0 ==> decimal(n)[0] != '0',
        n == 0 ==> decimal(n) == seq!['0'],
    decreases n,
{
    if n >= 10 {
        law_decimal_digits(n / 10);
        law_decimal(n / 10);
        let t = decimal(n / 10);
        assert(decimal(n)[0] == t[0]);
        assert forall|i: int| 0 <= i < decimal(n).len() implies 48
            <= #[trigger] decimal(n)[i] as u32 <= 57 by {
            if i < t.len() {
                assert(decimal(n)[i] == t[i]);
            }
        }
    }
}

/// A number is read back from its text, which has no space in it.
pub proof fn law_signed_decimal(n: int)
    ensures
        signed_value(signed_decimal(n)) == Some(n),
        no_space(signed_decimal(n)),
{
    if n < 0 {
        let d = decimal((-n) as nat);
        law_decimal((-n) as nat);
        assert(signed_decimal(n).skip(1) =~= d);
        assert forall|i: int| 0 <= i < signed_decimal(n).len() implies signed_decimal(n)[i] != ' ' by {
            if i > 0 {
                assert(signed_decimal(n)[i] == d[i - 1]);
            }
        }
    } else {
        law_decimal(n as nat);
        law_decimal_digits(n as nat);
    }
}

/// The fields of two texts with a space between them are those of the one and then of the other.
pub proof fn lemma_split_concat(a: Seq<char>, b: Seq<char>)
    ensures
        split(a + seq![' '] + b) == split(a) + split(b),
    decreases a.len(),
{
    let s = a + seq![' '] + b;
    let e = space_from(a, 0);
    lemma_space_found(a, 0);
    if e < a.len() {
        lemma_space_from(s, 0, e);
        assert(s.take(e) =~= a.take(e));
        lemma_split_concat(a.skip(e + 1), b);
        assert(s.skip(e + 1) =~= a.skip(e + 1) + seq![' '] + b);
        assert(split(s) =~= split(a) + split(b));
    } else {
        let n = a.len() as int;
        lemma_space_from(s, 0, n);
        assert(s.take(n) =~= a);
        assert(s.skip(n + 1) =~= b);
        assert(split(s) =~= split(a) + split(b));
    }
}

/// What `space_from` finds.
proof fn lemma_space_found(s: Seq<char>, i: int)
    requires
        0 <= i <= s.len(),
    ensures
        ({
            let e = space_from(s, i);
            &&& i <= e <= s.len()
            &&& e < s.len() ==> s[e] == ' '
            &&& forall|k: int| i <= k < e ==> s[k] != ' '
        }),
    decreases s.len() - i,
{
    if i < s.len() && s[i] != ' ' {
        lemma_space_found(s, i + 1);
    }
}

/// The digits before a digit make a number that is not larger.
proof fn lemma_digits_prefix(s: Seq<char>, i: int)
    requires
        0 <= i <= s.len(),
        digits_value(s) is Some,
    ensures
        digits_value(s.take(i)) is Some,
        digits_value(s.take(i))->0 <= digits_value(s)->0,
    decreases s.len(),
{
    if i == s.len() {
        assert(s.take(i) =~= s);
    } else {
        lemma_digits_prefix(s.drop_last(), i);
        assert(s.drop_last().take(i) =~= s.take(i));
    }
}

fn digit_str(n: u32) -> (r: &'static str)
    requires
        n < 10,
    ensures
        r@ == seq![digit_char(n as nat)],
{
    proof {
        reveal_strlit("0");
        reveal_strlit("1");
        reveal_strlit("2");
        reveal_strlit("3");
        reveal_strlit("4");
        reveal_strlit("5");
        reveal_strlit("6");
        reveal_strlit("7");
        reveal_strlit("8");
        reveal_strlit("9");
    }
    let r = if n == 0 {
        "0"
    } else if n == 1 {
        "1"
    } else if n == 2 {
        "2"
    } else if n == 3 {
        "3"
    } else if n == 4 {
        "4"
    } else if n == 5 {
        "5"
    } else if n == 6 {
        "6"
    } else if n == 7 {
        "7"
    } else if n == 8 {
        "8"
    } else {
        "9"
    };
    assert(r@ =~= seq![digit_char(n as nat)]);
    r
}

/// Appends the decimal digits of `n`.
pub fn append_decimal(out: &mut String, n: u32)
    ensures
        final(out)@ == old(out)@ + decimal(n as nat),
    decreases n,
{
    if n >= 10 {
        append_decimal(out, n / 10);
    }
    out.append(digit_str(n % 10));
    assert(out@ =~= old(out)@ + decimal(n as nat));
}

/// Appends the decimal digits of `n`, after a minus sign if it is negative.
pub fn append_signed(out: &mut String, n: i32)
    requires
        n > i32::MIN,
    ensures
        final(out)@ == old(out)@ + signed_decimal(n as int),
{
    if n < 0 {
        proof {
            reveal_strlit("-");
        }
        out.append("-");
        append_decimal(out, (-n) as u32);
        assert(out@ =~= old(out)@ + signed_decimal(n as int));
    } else {
        append_decimal(out, n as u32);
    }
}

/// Appends a space.
pub fn append_space(out: &mut String)
    ensures
        final(out)@ == old(out)@.push(' '),
{
    proof {
        reveal_strlit(" ");
    }
    out.append(" ");
    assert(out@ =~= old(out)@.push(' '));
}

/// The characters of `s`.
pub fn chars_of(s: &str) -> (r: Vec<char>)
    ensures
        r@ == s@,
{
    let n: usize = s.unicode_len();
    let mut r: Vec<char> = Vec::new();
    let mut i: usize = 0;
    while i < n
        invariant
            i <= n,
            n == s@.len(),
            r@ == s@.take(i as int),
        decreases n - i,
    {
        r.push(s.get_char(i));
        i = i + 1;
        assert(r@ =~= s@.take(i as int));
    }
    assert(s@.take(n as int) =~= s@);
    r
}

/// The texts of `fields`.
pub open spec fn texts(fields: Seq<Vec<char>>) -> Seq<Seq<char>> {
    fields.map_values(|f: Vec<char>| f@)
}

/// The fields between the spaces of `s`.
pub fn split_fields(s: &Vec<char>) -> (r: Vec<Vec<char>>)
    ensures
        texts(r@) == split(s@),
{
    let mut r: Vec<Vec<char>> = Vec::new();
    let mut field: Vec<char> = Vec::new();
    let mut i: usize = 0;
    let ghost mut start: int = 0;
    assert(s@.skip(0) =~= s@);
    assert(texts(r@) =~= Seq::empty());
    assert(split(s@) =~= texts(r@) + split(s@.skip(0)));
    while i < s.len()
        invariant
            0 <= start <= i <= s@.len(),
            field@ == s@.subrange(start, i as int),
            no_space(field@),
            split(s@) == texts(r@) + split(s@.skip(start)),
        decreases s@.len() - i,
    {
        let c: char = s[i];
        i = i + 1;
        if c == ' ' {
            proof {
                let t = s@.skip(start);
                let e = i - 1 - start;
                assert forall|k: int| 0 <= k < e implies t[k] != ' ' by {
                    assert(field@[k] == t[k]);
                }
                lemma_space_from(t, 0, e);
                assert(t.take(e) =~= field@);
                assert(t.skip(e + 1) =~= s@.skip(i as int));
                assert(texts(r@.push(field)) =~= texts(r@).push(field@));
                assert(texts(r@) + (seq![field@] + split(s@.skip(i as int))) =~= texts(
                    r@.push(field),
                ) + split(s@.skip(i as int)));
                start = i as int;
            }
            r.push(field);
            field = Vec::new();
            assert(field@ =~= s@.subrange(start, i as int));
        } else {
            let ghost before = field@;
            field.push(c);
            assert(field@ =~= s@.subrange(start, i as int));
            assert(no_space(field@)) by {
                assert(field@ =~= before.push(c));
            }
        }
    }
    proof {
        let t = s@.skip(start);
        assert(t =~= field@);
        lemma_space_from(t, 0, t.len() as int);
        assert(texts(r@.push(field)) =~= texts(r@).push(field@));
        assert(texts(r@) + seq![field@] =~= texts(r@.push(field)));
    }
    r.push(field);
    r
}

/// The number of sixteen bits that the text `s` is.
pub fn parse_number(s: &Vec<char>) -> (r: Option<u16>)
    ensures
        r == number_of_text(s@),
{
    if s.len() == 0 {
        return None;
    }
    let mut v: u32 = 0;
    let mut i: usize = 0;
    assert(s@.take(0) =~= Seq::empty());
    while i < s.len()
        invariant
            i <= s@.len(),
            v <= u16::MAX,
            digits_value(s@.take(i as int)) == Some(v as nat),
        decreases s@.len() - i,
    {
        let c: u32 = s[i] as u32;
        proof {
            let t = s@.take(i + 1);
            assert(t.drop_last() =~= s@.take(i as int));
            assert(t.last() == s@[i as int]);
            if digits_value(s@) is Some {
                lemma_digits_prefix(s@, i + 1);
            }
        }
        if c < 48 || c > 57 {
            return None;
        }
        v = 10 * v + (c - 48);
        if v > 0xFFFF {
            return None;
        }
        i = i + 1;
    }
    assert(s@.take(i as int) =~= s@);
    Some(v as u16)
}

} // verus!
