use vstd::prelude::*;
use vstd::utf8::encode_utf8;

verus! {

/// Two texts with the same UTF-8 encoding are the same text.
pub proof fn lemma_encoding_determines_text(a: Seq<char>, b: Seq<char>)
    ensures
        encode_utf8(a) == encode_utf8(b) <==> a == b,
{
    broadcast use vstd::utf8::encode_utf8_decode_utf8;

    if encode_utf8(a) == encode_utf8(b) {
        assert(vstd::utf8::decode_utf8(encode_utf8(a)) == a);
        assert(vstd::utf8::decode_utf8(encode_utf8(b)) == b);
    }
}

/// Whether two texts are equal.
pub fn same_text(a: &str, b: &str) -> (same: bool)
    ensures
        same == (a@ == b@),
{
    proof {
        lemma_encoding_determines_text(a@, b@);
    }
    let x = a.as_bytes();
    let y = b.as_bytes();
    if x.len() != y.len() {
        return false;
    }
    let mut i: usize = 0;
    while i < x.len()
        invariant
            i <= x@.len(),
            x@.len() == y@.len(),
            x@ == encode_utf8(a@),
            y@ == encode_utf8(b@),
            encode_utf8(a@) == encode_utf8(b@) <==> a@ == b@,
            forall|k: int| 0 <= k < i ==> x@[k] == y@[k],
        decreases x@.len() - i,
    {
        if x[i] != y[i] {
            return false;
        }
        i += 1;
    }
    assert(x@ =~= y@);
    true
}

/// A text without the slashes at its end.
pub open spec fn without_trailing_slashes(text: Seq<char>) -> Seq<char>
    decreases text.len(),
{
    if text.len() > 0 && text.last() == '/' {
        without_trailing_slashes(text.drop_last())
    } else {
        text
    }
}

/// A text without the slashes at its end.
pub fn trim_trailing_slashes(text: &str) -> (trimmed: &str)
    ensures
        trimmed@ == without_trailing_slashes(text@),
{
    let mut end: usize = text.unicode_len();
    assert(text@.take(end as int) =~= text@);
    while end > 0 && text.get_char(end - 1) == '/'
        invariant
            end <= text@.len(),
            without_trailing_slashes(text@.take(end as int)) == without_trailing_slashes(text@),
        ensures
            end <= text@.len(),
            without_trailing_slashes(text@.take(end as int)) == without_trailing_slashes(text@),
            end == 0 || text@[end - 1] != '/',
        decreases end,
    {
        assert(text@.take(end as int).drop_last() =~= text@.take(end - 1));
        end -= 1;
    }
    text.substring_char(0, end)
}

/// A slash at the end makes no difference, and none is left.
pub proof fn law_trailing_slashes_do_not_matter(text: Seq<char>)
    ensures
        without_trailing_slashes(text.push('/')) == without_trailing_slashes(text),
        without_trailing_slashes(text).len() > 0 ==> without_trailing_slashes(text).last() != '/',
    decreases text.len(),
{
    assert(text.push('/').drop_last() =~= text);
    if text.len() > 0 && text.last() == '/' {
        law_trailing_slashes_do_not_matter(text.drop_last());
    }
}

/// The digit of a number below ten.
pub open spec fn digit(number: nat) -> Seq<char> {
    if number == 0 {
        "0"@
    } else if number == 1 {
        "1"@
    } else if number == 2 {
        "2"@
    } else if number == 3 {
        "3"@
    } else if number == 4 {
        "4"@
    } else if number == 5 {
        "5"@
    } else if number == 6 {
        "6"@
    } else if number == 7 {
        "7"@
    } else if number == 8 {
        "8"@
    } else {
        "9"@
    }
}

/// The decimal digits of a number.
pub open spec fn digits(number: nat) -> Seq<char>
    decreases number,
{
    if number < 10 {
        digit(number)
    } else {
        digits(number / 10) + digit(number % 10)
    }
}

/// The decimal digits of a number.
pub fn decimal(number: u64) -> (text: String)
    ensures
        text@ == digits(number as nat),
    decreases number,
{
    let last = match number % 10 {
        0 => "0",
        1 => "1",
        2 => "2",
        3 => "3",
        4 => "4",
        5 => "5",
        6 => "6",
        7 => "7",
        8 => "8",
        _ => "9",
    };
    assert(last@ == digit(number as nat % 10));
    if number < 10 {
        last.to_owned()
    } else {
        decimal(number / 10).concat(last)
    }
}

} // verus!
