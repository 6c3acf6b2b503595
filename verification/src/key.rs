//! Account addresses.

use std::str::FromStr;

use solana_pubkey::Pubkey;
use vstd::prelude::*;

use crate::text::{self, joined};

verus! {

/// The address of an account: its bytes.
#[derive(Clone, Copy, Debug)]
pub struct Key {
    pub bytes: [u8; 32],
}

impl View for Key {
    type V = Seq<u8>;

    open spec fn view(&self) -> Seq<u8> {
        self.bytes@
    }
}

impl Key {
    /// Whether two addresses are the same.
    pub fn same(&self, other: &Key) -> (res: bool)
        ensures
            res == (self@ == other@),
            res == (self.bytes@ == other.bytes@),
    {
        let mut i: usize = 0;
        while i < 32
            invariant
                0 <= i <= 32,
                forall|j: int| 0 <= j < i ==> self@[j] == other@[j],
            decreases 32 - i,
        {
            if self.bytes[i] != other.bytes[i] {
                assert(self@[i as int] != other@[i as int]);
                return false;
            }
            i = i + 1;
        }
        assert(self@ =~= other@);
        true
    }
}

/// The digits of base 58: the decimal digits but zero, then the letters but
/// `I`, `O` and `l`, capitals first.
pub open spec fn base58_symbol(digit: int) -> char {
    if digit < 9 {
        ('1' as int + digit) as char
    } else if digit < 17 {
        ('A' as int + digit - 9) as char
    } else if digit < 22 {
        ('J' as int + digit - 17) as char
    } else if digit < 33 {
        ('P' as int + digit - 22) as char
    } else if digit < 44 {
        ('a' as int + digit - 33) as char
    } else {
        ('m' as int + digit - 44) as char
    }
}

/// A number in base 58, with no digits for zero.
pub open spec fn base58_digits(n: nat) -> Seq<char>
    decreases n,
{
    if n == 0 {
        Seq::empty()
    } else {
        base58_digits(n / 58).push(base58_symbol((n % 58) as int))
    }
}

/// The number that bytes write, the highest first.
pub open spec fn big_endian(bytes: Seq<u8>) -> nat
    decreases bytes.len(),
{
    if bytes.len() == 0 {
        0
    } else {
        big_endian(bytes.drop_last()) * 256 + bytes.last() as nat
    }
}

/// How many zeros bytes begin with.
pub open spec fn leading_zeros(bytes: Seq<u8>) -> nat
    decreases bytes.len(),
{
    if bytes.len() == 0 || bytes[0] != 0 {
        0
    } else {
        1 + leading_zeros(bytes.skip(1))
    }
}

/// How an address is written in base 58: a one for each zero that it begins
/// with, and then its number.
pub open spec fn pubkey_text(key: Seq<u8>) -> Seq<char> {
    Seq::new(leading_zeros(key), |i: int| '1') + base58_digits(big_endian(key))
}

/// A text is how an address is written.
pub open spec fn is_text_of(text: Seq<char>, key: Seq<u8>) -> bool {
    key.len() == 32 && text == pubkey_text(key)
}

/// A character is a digit of base 58.
pub open spec fn is_base58_symbol(c: char) -> bool {
    exists|digit: int| 0 <= digit < 58 && c == #[trigger] base58_symbol(digit)
}

/// The address that a text writes, or why it writes none: of the texts that
/// are short enough for an address, those with a character that is no digit
/// are told apart.
pub open spec fn pubkey_of_text(text: Seq<char>) -> Result<Seq<u8>, Seq<char>> {
    if exists|key: Seq<u8>| is_text_of(text, key) {
        Ok(choose|key: Seq<u8>| is_text_of(text, key))
    } else if vstd::utf8::encode_utf8(text).len() <= 44 && exists|i: int|
        0 <= i < text.len() && !is_base58_symbol(#[trigger] text[i]) {
        Err("Invalid Base58 string"@)
    } else {
        Err("String is the wrong size"@)
    }
}

/// Calls `Pubkey::from_str`, with the error turned to text. It reads what
/// `Display` of `Pubkey` writes and nothing else, see [`pubkey_of_text`].
#[verifier::external_body]
pub(crate) fn pubkey_from_text(value: &str) -> (res: Result<Key, String>)
    ensures
        text::outcome(res) == pubkey_of_text(value@),
{
    match Pubkey::from_str(value) {
        Ok(key) => Ok(Key { bytes: key.to_bytes() }),
        Err(error) => Err(error.to_string()),
    }
}

/// Calls `Display` of `Pubkey`, which writes the address in base 58, see
/// [`pubkey_text`].
#[verifier::external_body]
pub(crate) fn text_of_pubkey(key: &Key) -> (res: String)
    ensures
        res@ == pubkey_text(key@),
{
    Pubkey::new_from_array(key.bytes).to_string()
}

/// The result of reading an address: the address, or an error that quotes the
/// text and gives the reason why it is none.
pub open spec fn pubkey_result(
    value: Seq<char>,
    decoded: Result<Seq<u8>, Seq<char>>,
) -> Result<Seq<u8>, Seq<char>> {
    match decoded {
        Ok(key) => Ok(key),
        Err(reason) => Err("invalid pubkey "@ + value + ": "@ + reason),
    }
}

/// Puts the text in question before the reason why it is no address.
pub fn explain_pubkey(value: &str, decoded: Result<Key, String>) -> (res: Result<Key, String>)
    ensures
        text::outcome(res) == pubkey_result(value@, text::outcome(decoded)),
        decoded matches Ok(key) ==> res is Ok && res->Ok_0 == key,
        decoded matches Err(reason) ==> res is Err && res->Err_0@ == "invalid pubkey "@ + value@
            + ": "@ + reason@,
{
    match decoded {
        Ok(key) => Ok(key),
        Err(reason) => {
            let head: String = joined(joined("invalid pubkey ", value).as_str(), ": ");
            Err(joined(head.as_str(), reason.as_str()))
        },
    }
}

/// The result of reading an address from a text.
pub open spec fn parsed_pubkey(value: Seq<char>) -> Result<Seq<u8>, Seq<char>> {
    pubkey_result(value, pubkey_of_text(value))
}

/// Reads an address, see [`parsed_pubkey`].
pub fn parse_pubkey(value: &str) -> (res: Result<Key, String>)
    ensures
        text::outcome(res) == parsed_pubkey(value@),
{
    explain_pubkey(value, pubkey_from_text(value))
}

/// Different digits have different symbols.
proof fn lemma_symbols_differ(a: int, b: int)
    requires
        0 <= a < 58,
        0 <= b < 58,
        base58_symbol(a) == base58_symbol(b),
    ensures
        a == b,
{
}

/// A number other than zero has digits, and the first of them is not zero.
proof fn lemma_first_digit(n: nat)
    requires
        n > 0,
    ensures
        base58_digits(n).len() > 0,
        base58_digits(n)[0] != '1',
    decreases n,
{
    if n < 58 {
        assert(base58_digits(n / 58).len() == 0);
    } else {
        lemma_first_digit(n / 58);
    }
}

/// Different numbers have different digits.
proof fn lemma_digits_differ(m: nat, n: nat)
    requires
        base58_digits(m) == base58_digits(n),
    ensures
        m == n,
    decreases m,
{
    if m > 0 && n > 0 {
        let digits = base58_digits(m);
        assert(digits.drop_last() =~= base58_digits(m / 58));
        assert(digits.drop_last() =~= base58_digits(n / 58));
        assert(digits.last() == base58_symbol((m % 58) as int));
        assert(digits.last() == base58_symbol((n % 58) as int));
        lemma_symbols_differ((m % 58) as int, (n % 58) as int);
        lemma_digits_differ(m / 58, n / 58);
    } else if m > 0 {
        lemma_first_digit(m);
    } else if n > 0 {
        lemma_first_digit(n);
    }
}

/// Different byte sequences of the same length write different numbers.
proof fn lemma_bytes_differ(a: Seq<u8>, b: Seq<u8>)
    requires
        a.len() == b.len(),
        big_endian(a) == big_endian(b),
    ensures
        a == b,
    decreases a.len(),
{
    if a.len() == 0 {
        assert(a =~= b);
    } else {
        lemma_bytes_differ(a.drop_last(), b.drop_last());
        assert(a =~= a.drop_last().push(a.last()));
        assert(b =~= b.drop_last().push(b.last()));
    }
}

/// Ones that stand before the digits of a number can be told from them.
proof fn lemma_ones_end(ones: nat, m: nat, others: nat, n: nat)
    requires
        Seq::new(ones, |i: int| '1') + base58_digits(m) == Seq::new(others, |i: int| '1')
            + base58_digits(n),
    ensures
        ones >= others,
{
    let text = Seq::new(ones, |i: int| '1') + base58_digits(m);
    let same = Seq::new(others, |i: int| '1') + base58_digits(n);
    if ones < others {
        assert(same[ones as int] == '1');
        if m > 0 {
            lemma_first_digit(m);
            assert(text[ones as int] == base58_digits(m)[0]);
        } else {
            assert(text.len() == ones);
            assert(same.len() >= others);
        }
    }
}

/// No two addresses are written alike.
pub proof fn addresses_are_written_differently(a: Seq<u8>, b: Seq<u8>)
    requires
        a.len() == 32,
        b.len() == 32,
        pubkey_text(a) == pubkey_text(b),
    ensures
        a == b,
{
    let (ones, others) = (leading_zeros(a), leading_zeros(b));
    let (m, n) = (big_endian(a), big_endian(b));
    lemma_ones_end(ones, m, others, n);
    lemma_ones_end(others, n, ones, m);
    assert(pubkey_text(a).skip(ones as int) =~= base58_digits(m));
    assert(pubkey_text(b).skip(others as int) =~= base58_digits(n));
    lemma_digits_differ(m, n);
    lemma_bytes_differ(a, b);
}

/// What is written of an address reads back as that address.
pub proof fn addresses_read_back(key: Seq<u8>)
    requires
        key.len() == 32,
    ensures
        parsed_pubkey(pubkey_text(key)) == Result::<Seq<u8>, Seq<char>>::Ok(key),
{
    let text = pubkey_text(key);
    assert(is_text_of(text, key));
    let read = choose|other: Seq<u8>| is_text_of(text, other);
    assert(is_text_of(text, read));
    addresses_are_written_differently(key, read);
}

/// A text reads as an address exactly when it is how an address of 32 bytes is
/// written, and then as that address: different texts give different addresses.
/// The error of any other text quotes it.
pub proof fn only_written_addresses_are_read(text: Seq<char>)
    ensures
        parsed_pubkey(text) is Ok <==> exists|key: Seq<u8>| is_text_of(text, key),
        parsed_pubkey(text) matches Ok(key) ==> is_text_of(text, key),
        parsed_pubkey(text) matches Err(error) ==> ("invalid pubkey "@ + text
            + ": "@).is_prefix_of(error),
{
    if let Err(reason) = pubkey_of_text(text) {
        let head = "invalid pubkey "@ + text + ": "@;
        assert((head + reason).subrange(0, head.len() as int) =~= head);
    }
}

/// An address of zeros is written with as many ones.
pub proof fn zeros_are_written_as_ones(key: Seq<u8>)
    requires
        forall|i: int| 0 <= i < key.len() ==> #[trigger] key[i] == 0,
    ensures
        pubkey_text(key) == Seq::new(key.len(), |i: int| '1'),
{
    lemma_zeros(key);
    assert(pubkey_text(key) =~= Seq::new(key.len(), |i: int| '1'));
}

/// Bytes that are all zero begin with as many zeros, and write zero.
proof fn lemma_zeros(bytes: Seq<u8>)
    requires
        forall|i: int| 0 <= i < bytes.len() ==> #[trigger] bytes[i] == 0,
    ensures
        leading_zeros(bytes) == bytes.len(),
        big_endian(bytes) == 0,
    decreases bytes.len(),
{
    if bytes.len() > 0 {
        let rest = bytes.skip(1);
        let front = bytes.drop_last();
        assert(forall|i: int| 0 <= i < rest.len() ==> rest[i] == bytes[i + 1]);
        assert(forall|i: int| 0 <= i < front.len() ==> front[i] == bytes[i]);
        lemma_zeros(rest);
        lemma_zeros(front);
    }
}

/// The error of a text that is no address quotes it and gives the reason: a
/// character that is no digit of base 58 in a text that is short enough, or
/// else the size.
pub proof fn unreadable_addresses_are_explained(text: Seq<char>)
    requires
        forall|key: Seq<u8>| key.len() == 32 ==> text != #[trigger] pubkey_text(key),
    ensures
        parsed_pubkey(text) == Result::<Seq<u8>, Seq<char>>::Err(
            "invalid pubkey "@ + text + ": "@ + if vstd::utf8::encode_utf8(text).len() <= 44
                && exists|i: int|
                #![trigger text[i]]
                0 <= i < text.len() && forall|digit: int|
                    0 <= digit < 58 ==> #[trigger] base58_symbol(digit) != text[i] {
                "Invalid Base58 string"@
            } else {
                "String is the wrong size"@
            },
        ),
{
    assert forall|key: Seq<u8>| !is_text_of(text, key) by {}
    assert forall|i: int| 0 <= i < text.len() implies !is_base58_symbol(#[trigger] text[i])
        == forall|digit: int|
        0 <= digit < 58 ==> #[trigger] base58_symbol(digit) != text[i] by {}
}

/// The view of an address is its 32 bytes.
pub proof fn address_views_are_their_bytes(key: Key)
    ensures
        key@ == key.bytes@,
        key@.len() == 32,
{
}

} // verus!
