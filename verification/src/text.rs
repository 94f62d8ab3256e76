//! Text as messages and names are built from it: whole numbers written out, and strings compared.
use vstd::prelude::*;
use vstd::string::*;

verus! {

/// The character that writes the digit `d`.
pub open spec fn digit_char(d: nat) -> char {
    if d == 0 { '0' }
    else if d == 1 { '1' }
    else if d == 2 { '2' }
    else if d == 3 { '3' }
    else if d == 4 { '4' }
    else if d == 5 { '5' }
    else if d == 6 { '6' }
    else if d == 7 { '7' }
    else if d == 8 { '8' }
    else { '9' }
}

/// `n` written in decimal, most significant digit first, with no leading zero.
pub open spec fn decimal(n: nat) -> Seq<char>
    decreases n,
{
    if n < 10 {
        seq![digit_char(n)]
    } else {
        decimal(n / 10).push(digit_char(n % 10))
    }
}

/// `n` written in decimal, with a `-` in front where it is negative.
pub open spec fn signed_decimal(n: int) -> Seq<char> {
    if n < 0 {
        seq!['-'] + decimal((-n) as nat)
    } else {
        decimal(n as nat)
    }
}

/// The one-character text of the digit `d`.
fn digit_text(d: u64) -> (written: &'static str)
    requires
        d < 10,
    ensures
        written@ == seq![digit_char(d as nat)],
{
    proof {
        reveal_strlit("0");
        reveal_strlit("1");
        reveal_strlit("2");
        reveal_strlit("3");
        reveal_strlit("4");
        reveal_strlit("5");
        reveal_strlit("6");
        reveal_strlit("7");
        reveal_strlit("8");
        reveal_strlit("9");
    }
    if d == 0 { "0" }
    else if d == 1 { "1" }
    else if d == 2 { "2" }
    else if d == 3 { "3" }
    else if d == 4 { "4" }
    else if d == 5 { "5" }
    else if d == 6 { "6" }
    else if d == 7 { "7" }
    else if d == 8 { "8" }
    else { "9" }
}

/// `n` written in decimal.
pub fn decimal_of(n: u64) -> (written: String)
    ensures
        written@ == decimal(n as nat),
    decreases n,
{
    if n < 10 {
        String::from_str(digit_text(n))
    } else {
        let mut written = decimal_of(n / 10);
        written.append(digit_text(n % 10));
        written
    }
}

/// `n` written in decimal.
pub fn count_of(n: usize) -> (written: String)
    ensures
        written@ == decimal(n as nat),
{
    decimal_of(n as u64)
}

/// `n` written in decimal, with a `-` in front where it is negative.
pub fn signed_decimal_of(n: i64) -> (written: String)
    ensures
        written@ == signed_decimal(n as int),
{
    if n < 0 {
        let magnitude: u64 = if n == i64::MIN {
            9223372036854775808u64
        } else {
            (-n) as u64
        };
        let mut written = String::from_str("-");
        proof {
            reveal_strlit("-");
        }
        let digits = decimal_of(magnitude);
        written.append(digits.as_str());
        written
    } else {
        decimal_of(n as u64)
    }
}

/// Whether two texts are the same characters.
pub fn same_text(one: &str, other: &str) -> (same: bool)
    ensures
        same == (one@ == other@),
{
    let length = one.unicode_len();
    if length != other.unicode_len() {
        return false;
    }
    let mut i: usize = 0;
    while i < length
        invariant
            length == one@.len(),
            length == other@.len(),
            i <= length,
            forall|j: int| 0 <= j < i ==> one@[j] == other@[j],
        decreases length - i,
    {
        if one.get_char(i) != other.get_char(i) {
            return false;
        }
        i = i + 1;
    }
    assert(one@ =~= other@);
    true
}

/// Whether `text` begins with `prefix`.
pub fn begins_with(text: &str, prefix: &str) -> (begins: bool)
    ensures
        begins == (prefix@.len() <= text@.len() && text@.subrange(0, prefix@.len() as int)
            == prefix@),
{
    let length = prefix.unicode_len();
    if length > text.unicode_len() {
        return false;
    }
    let mut i: usize = 0;
    while i < length
        invariant
            length == prefix@.len(),
            length <= text@.len(),
            i <= length,
            forall|j: int| 0 <= j < i ==> text@[j] == prefix@[j],
        decreases length - i,
    {
        if text.get_char(i) != prefix.get_char(i) {
            assert(text@.subrange(0, length as int)[i as int] != prefix@[i as int]);
            return false;
        }
        i = i + 1;
    }
    assert(text@.subrange(0, length as int) =~= prefix@);
    true
}

/// Whether the character `wanted` appears anywhere in `text`.
pub fn has_char(text: &str, wanted: char) -> (found: bool)
    ensures
        found == text@.contains(wanted),
{
    let length = text.unicode_len();
    let mut i: usize = 0;
    while i < length
        invariant
            length == text@.len(),
            i <= length,
            forall|j: int| 0 <= j < i ==> text@[j] != wanted,
        decreases length - i,
    {
        if text.get_char(i) == wanted {
            return true;
        }
        i = i + 1;
    }
    false
}

/// The texts a sequence of strings holds.
pub open spec fn texts(strings: Seq<String>) -> Seq<Seq<char>> {
    strings.map_values(|one: String| one@)
}

/// The texts a sequence of string slices holds.
pub open spec fn slice_texts(strings: Seq<&str>) -> Seq<Seq<char>> {
    strings.map_values(|one: &str| one@)
}

/// The same strings, each copied.
pub fn copied_strings(strings: &Vec<String>) -> (copy: Vec<String>)
    ensures
        copy@ == strings@,
{
    let mut copy: Vec<String> = Vec::new();
    let mut i: usize = 0;
    while i < strings.len()
        invariant
            i <= strings.len(),
            copy@ == strings@.take(i as int),
        decreases strings.len() - i,
    {
        copy.push(strings[i].clone());
        assert(strings@.take(i + 1) =~= strings@.take(i as int).push(strings@[i as int]));
        i = i + 1;
    }
    assert(strings@.take(strings.len() as int) =~= strings@);
    copy
}

/// Whether `strings` holds `text`.
pub fn holds_text(strings: &Vec<String>, text: &String) -> (found: bool)
    ensures
        found == texts(strings@).contains(text@),
{
    let mut i: usize = 0;
    while i < strings.len()
        invariant
            i <= strings@.len(),
            forall|j: int| 0 <= j < i ==> strings@[j]@ != text@,
        decreases strings.len() - i,
    {
        if strings[i] == *text {
            assert(texts(strings@)[i as int] == text@);
            return true;
        }
        i = i + 1;
    }
    proof {
        if texts(strings@).contains(text@) {
            let k = choose|k: int| 0 <= k < texts(strings@).len() && texts(strings@)[k] == text@;
            assert(strings@[k]@ == text@);
        }
    }
    false
}

} // verus!
