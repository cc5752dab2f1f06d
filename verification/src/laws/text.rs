//! Numbers and words in texts.
use crate::utils::local_ip_address::{
    dotted, get_interfaces, v4_text, v4_texts, InterfaceAddr,
};
use crate::utils::text::{
    chars_of, contains, copy_all, decimal, digits_value, is_number, law_decimal_round_trip, mentions,
    occurs_at, parse_u32, parsed_u32, push_decimal, push_text, texts, without_plus,
};
use vstd::prelude::*;

verus! {

/// The number that decimal digits stand for, the first of them the highest.
pub open spec fn number(d: Seq<char>) -> int
    decreases d.len(),
{
    if d.len() == 0 {
        0
    } else {
        10 * number(d.drop_last()) + (d.last() as int - 48)
    }
}

/// Whether a text is one or more of the digits from 0 (character 48) to 9.
pub open spec fn all_digits(d: Seq<char>) -> bool {
    d.len() > 0 && forall|i: int| 0 <= i < d.len() ==> 48 <= #[trigger] d[i] as int <= 57
}

/// Whether a text is the number `n` in digits, without zeros in front.
pub open spec fn spells(d: Seq<char>, n: int) -> bool {
    all_digits(d) && number(d) == n && (d[0] as int == 48 ==> d.len() == 1)
}

/// The two ways to read digits agree.
proof fn lemma_number(d: Seq<char>)
    requires
        forall|i: int| 0 <= i < d.len() ==> 48 <= #[trigger] d[i] as int <= 57,
    ensures
        number(d) == digits_value(d),
        number(d) >= 0,
    decreases d.len(),
{
    if d.len() > 0 {
        assert(forall|i: int| 0 <= i < d.len() - 1 ==> #[trigger] d.drop_last()[i] == d[i]);
        lemma_number(d.drop_last());
        assert(d.last() == d[d.len() - 1]);
    }
}

/// A number in decimal is spelled as it should be.
pub proof fn lemma_decimal_spells(n: nat)
    ensures
        spells(decimal(n), n as int),
    decreases n,
{
    law_decimal_round_trip(n);
    let d = decimal(n);
    assert forall|i: int| 0 <= i < d.len() implies 48 <= #[trigger] d[i] as int <= 57 by {
        assert(crate::utils::text::is_digit(d[i]));
    }
    lemma_number(d);
    if n >= 10 {
        lemma_decimal_spells(n / 10);
        let f = decimal(n / 10);
        assert(d[0] == f[0]);
        if f[0] as int == 48 {
            assert(f.drop_last() =~= Seq::empty());
            assert(number(f.drop_last()) == 0);
        }
    }
}

/// A number is appended in digits that stand for it.
pub proof fn law_number_is_appended(s: &mut String, n: u128)
    requires
        call_ensures(push_decimal, (s, n), ()),
    ensures
        final(s)@.len() > old(s)@.len(),
        final(s)@.take(old(s)@.len() as int) == old(s)@,
        spells(final(s)@.skip(old(s)@.len() as int), n as int),
{
    lemma_decimal_spells(n as nat);
    assert(final(s)@.take(old(s)@.len() as int) =~= old(s)@);
    assert(final(s)@.skip(old(s)@.len() as int) =~= decimal(n as nat));
}

/// A text is appended behind what is there.
pub proof fn law_text_is_appended(s: &mut String, text: &str)
    requires
        call_ensures(push_text, (s, text), ()),
    ensures
        final(s)@ == old(s)@ + text@,
{
}

/// What a text is read as.
pub proof fn lemma_number_is_read(text: Seq<char>)
    ensures
        ({
            let body = if text.len() > 0 && text[0] as int == 43 {
                text.skip(1)
            } else {
                text
            };
            &&& parsed_u32(text) is Some <==> all_digits(body) && number(body) <= 0xffff_ffff
            &&& parsed_u32(text) matches Some(v) ==> v == number(body)
        }),
{
    let body = without_plus(text);
    if all_digits(body) {
        assert(is_number(body)) by {
            assert forall|i: int| 0 <= i < body.len() implies crate::utils::text::is_digit(
                #[trigger] body[i],
            ) by {
                assert(48 <= body[i] as int <= 57);
            }
        }
        lemma_number(body);
    }
    if is_number(body) {
        assert forall|i: int| 0 <= i < body.len() implies 48 <= #[trigger] body[i] as int
            <= 57 by {
            assert(crate::utils::text::is_digit(body[i]));
        }
    }
}

/// A text is read as a number exactly when it is digits, behind one plus sign or none, of
/// a number below two to the 32nd; and then as this number.
pub proof fn law_number_is_read(text: &str, r: Option<u32>)
    requires
        call_ensures(parse_u32, (text,), r),
    ensures
        ({
            let body = if text@.len() > 0 && text@[0] as int == 43 {
                text@.skip(1)
            } else {
                text@
            };
            &&& r is Some <==> all_digits(body) && number(body) <= 0xffff_ffff
            &&& r matches Some(v) ==> v == number(body)
        }),
{
    lemma_number_is_read(text@);
}

/// A word is found exactly when it stands, character for character, somewhere in a text.
pub proof fn law_word_is_found_where_it_stands(text: &str, word: &str, r: bool)
    requires
        call_ensures(contains, (text, word), r),
    ensures
        r ==> exists|at: int|
            0 <= at <= text@.len() - word@.len() && #[trigger] stands_at(text@, word@, at),
        forall|at: int|
            0 <= at <= text@.len() - word@.len() && #[trigger] stands_at(text@, word@, at) ==> r,
{
    if r {
        let at = choose|at: int| #[trigger] occurs_at(text@, word@, at);
        lemma_stands(text@, word@, at);
    }
    assert forall|at: int|
        0 <= at <= text@.len() - word@.len() && #[trigger] stands_at(
            text@,
            word@,
            at,
        ) implies r by {
        lemma_stands(text@, word@, at);
    }
}

/// Whether the characters of `word` are those of `text` from `at` on.
pub open spec fn stands_at(text: Seq<char>, word: Seq<char>, at: int) -> bool {
    forall|k: int| 0 <= k < word.len() ==> text[at + k] == #[trigger] word[k]
}

/// Whether a word stands somewhere in a text.
pub open spec fn holds_word(text: Seq<char>, word: Seq<char>) -> bool {
    exists|at: int| 0 <= at <= text.len() - word.len() && #[trigger] stands_at(text, word, at)
}

/// A text that mentions a word holds it.
pub proof fn lemma_holds_word(text: Seq<char>, word: Seq<char>)
    ensures
        mentions(text, word) <==> holds_word(text, word),
{
    if mentions(text, word) {
        let at = choose|at: int| #[trigger] occurs_at(text, word, at);
        lemma_stands(text, word, at);
    }
    if holds_word(text, word) {
        let at = choose|at: int|
            0 <= at <= text.len() - word.len() && #[trigger] stands_at(text, word, at);
        lemma_stands(text, word, at);
    }
}

/// A word that occurs stands there.
proof fn lemma_stands(text: Seq<char>, word: Seq<char>, at: int)
    ensures
        0 <= at <= text.len() - word.len() ==> (occurs_at(text, word, at) <==> stands_at(
            text,
            word,
            at,
        )),
        occurs_at(text, word, at) ==> mentions(text, word),
{
    if 0 <= at <= text.len() - word.len() {
        let part = text.subrange(at, at + word.len());
        if stands_at(text, word, at) {
            assert(part =~= word);
        } else if occurs_at(text, word, at) {
            assert(forall|k: int| 0 <= k < word.len() ==> text[at + k] == #[trigger] part[k]);
        }
    }
}

/// The characters of a text are all of them, in their order.
pub proof fn law_characters_are_those_of_the_text(text: &str, r: Vec<char>)
    requires
        call_ensures(chars_of, (text,), r),
    ensures
        r@ == text@,
{
}

/// Copied strings have the same texts in the same places.
pub proof fn law_copies_have_the_same_texts(strings: &Vec<String>, r: Vec<String>)
    requires
        call_ensures(copy_all, (strings,), r),
    ensures
        r@.len() == strings@.len(),
        forall|i: int| 0 <= i < r@.len() ==> (#[trigger] r@[i])@ == strings@[i]@,
{
    assert(texts(r@).len() == texts(strings@).len());
    assert forall|i: int| 0 <= i < r@.len() implies (#[trigger] r@[i])@ == strings@[i]@ by {
        assert(texts(r@)[i] == texts(strings@)[i]);
    }
}

/// An IPv4 address is its four numbers with dots between them.
pub proof fn law_address_is_four_numbers(a: u8, b: u8, c: u8, d: u8, r: String)
    requires
        call_ensures(v4_text, (a, b, c, d), r),
    ensures
        is_address(r@, a, b, c, d),
{
    lemma_address(a, b, c, d);
}

/// Whether a text is an IPv4 address: four numbers with dots between them.
pub open spec fn is_address(text: Seq<char>, a: u8, b: u8, c: u8, d: u8) -> bool {
    exists|ta: Seq<char>, tb: Seq<char>, tc: Seq<char>, td: Seq<char>|
        {
            &&& text == ta + seq!['.'] + tb + seq!['.'] + tc + seq!['.'] + td
            &&& #[trigger] spells(ta, a as int)
            &&& #[trigger] spells(tb, b as int)
            &&& #[trigger] spells(tc, c as int)
            &&& #[trigger] spells(td, d as int)
        }
}

/// The text of an address is one.
proof fn lemma_address(a: u8, b: u8, c: u8, d: u8)
    ensures
        is_address(dotted(a, b, c, d), a, b, c, d),
{
    lemma_decimal_spells(a as nat);
    lemma_decimal_spells(b as nat);
    lemma_decimal_spells(c as nat);
    lemma_decimal_spells(d as nat);
}

/// How many of the first `n` interfaces have an IPv4 address.
pub open spec fn v4_among(interfaces: Seq<InterfaceAddr>, n: int) -> nat
    decreases n,
{
    if n <= 0 {
        0
    } else {
        v4_among(interfaces, n - 1) + if interfaces[n - 1] is V4 {
            1nat
        } else {
            0
        }
    }
}

/// The interfaces that are listed are those with an IPv4 address, each of them once and in
/// their order, by their address.
pub proof fn law_each_v4_interface_is_listed(
    interfaces: &Vec<InterfaceAddr>,
    r: Vec<String>,
    i: int,
)
    requires
        call_ensures(get_interfaces, (interfaces,), r),
    ensures
        r@.len() == v4_among(interfaces@, interfaces@.len() as int),
        0 <= i < interfaces@.len() ==> (interfaces@[i] matches InterfaceAddr::V4(a, b, c, d) ==> {
            let place = v4_among(interfaces@, i) as int;
            place < r@.len() && is_address(r@[place]@, a, b, c, d)
        }),
{
    let n = interfaces@.len() as int;
    assert(interfaces@.take(n) =~= interfaces@);
    lemma_listed(interfaces@, i, n);
    assert(texts(r@).len() == r@.len());
    if 0 <= i < n {
        if let InterfaceAddr::V4(a, b, c, d) = interfaces@[i] {
            let place = v4_among(interfaces@, i) as int;
            assert(texts(r@)[place] == r@[place]@);
            lemma_address(a, b, c, d);
        }
    }
}

/// Where an address stands among those of the first `n` interfaces.
proof fn lemma_listed(interfaces: Seq<InterfaceAddr>, i: int, n: int)
    requires
        0 <= n <= interfaces.len(),
    ensures
        v4_texts(interfaces.take(n)).len() == v4_among(interfaces, n),
        0 <= i < n ==> (interfaces[i] matches InterfaceAddr::V4(a, b, c, d) ==> {
            let place = v4_among(interfaces, i) as int;
            place < v4_among(interfaces, n) && v4_texts(interfaces.take(n))[place] == dotted(
                a,
                b,
                c,
                d,
            )
        }),
    decreases n,
{
    if n > 0 {
        lemma_listed(interfaces, i, n - 1);
        assert(interfaces.take(n).drop_last() =~= interfaces.take(n - 1));
        assert(interfaces.take(n).last() == interfaces[n - 1]);
    }
}

} // verus!
