//! The addresses of the machine.
use crate::utils::text::{decimal, push_decimal, texts};
use vstd::prelude::*;

verus! {

/// The address of a network interface.
#[derive(Clone, Copy, Debug, PartialEq, Eq, Structural)]
pub enum InterfaceAddr {
    /// An IPv4 address by its four parts.
    V4(u8, u8, u8, u8),
    /// An IPv6 address.
    V6,
}

/// An IPv4 address as text.
pub open spec fn dotted(a: u8, b: u8, c: u8, d: u8) -> Seq<char> {
    decimal(a as nat) + seq!['.'] + decimal(b as nat) + seq!['.'] + decimal(c as nat) + seq!['.']
        + decimal(d as nat)
}

/// The IPv4 addresses among those of the interfaces, as text and in their order.
pub open spec fn v4_texts(interfaces: Seq<InterfaceAddr>) -> Seq<Seq<char>>
    decreases interfaces.len(),
{
    if interfaces.len() == 0 {
        Seq::empty()
    } else {
        match interfaces.last() {
            InterfaceAddr::V4(a, b, c, d) => v4_texts(interfaces.drop_last()).push(
                dotted(a, b, c, d),
            ),
            InterfaceAddr::V6 => v4_texts(interfaces.drop_last()),
        }
    }
}

/// An IPv4 address as text.
pub fn v4_text(a: u8, b: u8, c: u8, d: u8) -> (r: String)
    ensures
        r@ == dotted(a, b, c, d),
{
    let mut r: String = String::new();
    push_decimal(&mut r, a as u128);
    r.push('.');
    push_decimal(&mut r, b as u128);
    r.push('.');
    push_decimal(&mut r, c as u128);
    r.push('.');
    push_decimal(&mut r, d as u128);
    assert(r@ =~= dotted(a, b, c, d));
    r
}

/// The IPv4 addresses among those of the interfaces, as text and in their order.
pub fn get_interfaces(interfaces: &Vec<InterfaceAddr>) -> (r: Vec<String>)
    ensures
        texts(r@) == v4_texts(interfaces@),
{
    let mut r: Vec<String> = Vec::new();
    let mut i: usize = 0;
    assert(texts(r@) =~= v4_texts(interfaces@.take(0)));
    while i < interfaces.len()
        invariant
            i <= interfaces@.len(),
            texts(r@) == v4_texts(interfaces@.take(i as int)),
        decreases interfaces@.len() - i,
    {
        let ghost before = texts(r@);
        assert(interfaces@.take(i + 1).drop_last() =~= interfaces@.take(i as int));
        match interfaces[i] {
            InterfaceAddr::V4(a, b, c, d) => {
                r.push(v4_text(a, b, c, d));
                assert(texts(r@) =~= before.push(dotted(a, b, c, d)));
            },
            InterfaceAddr::V6 => {},
        }
        i += 1;
    }
    assert(interfaces@.take(i as int) =~= interfaces@);
    r
}

/// Every text is the address of an IPv4 interface, and every such interface has its
/// address among them.
pub proof fn law_v4_interfaces_only(interfaces: Seq<InterfaceAddr>, text: Seq<char>)
    ensures
        v4_texts(interfaces).contains(text) <==> exists|i: int|
            0 <= i < interfaces.len() && match #[trigger] interfaces[i] {
                InterfaceAddr::V4(a, b, c, d) => dotted(a, b, c, d) == text,
                InterfaceAddr::V6 => false,
            },
    decreases interfaces.len(),
{
    if interfaces.len() > 0 {
        let front = interfaces.drop_last();
        law_v4_interfaces_only(front, text);
        let before = v4_texts(front);
        let all = v4_texts(interfaces);
        let last = interfaces.len() - 1;
        assert(interfaces[last] == interfaces.last());
        if before.contains(text) {
            let k = choose|k: int| 0 <= k < before.len() && before[k] == text;
            assert(all[k] == text);
            let i = choose|i: int|
                0 <= i < front.len() && match #[trigger] front[i] {
                    InterfaceAddr::V4(a, b, c, d) => dotted(a, b, c, d) == text,
                    InterfaceAddr::V6 => false,
                };
            assert(interfaces[i] == front[i]);
        } else {
            assert(forall|i: int| 0 <= i < front.len() ==> #[trigger] interfaces[i] == front[i]);
            if all.contains(text) {
                let k = choose|k: int| 0 <= k < all.len() && all[k] == text;
                if k < before.len() {
                    assert(before[k] == text);
                }
            }
            if let InterfaceAddr::V4(a, b, c, d) = interfaces.last() {
                assert(all[before.len() as int] == dotted(a, b, c, d));
            }
        }
    }
}

} // verus!
