//! Types used in the protocol.

use vstd::prelude::*;
use vstd::std_specs::cmp::PartialEqSpecImpl;
use vstd::string::StringExecFns;
use crate::utils::hex_digit;

verus! {

/// A TGC UUID, a 16-byte unique player identifier.
#[derive(Clone, Copy)]
pub struct TgcUuid([u8; 16]);

impl View for TgcUuid {
    type V = Seq<u8>;

    closed spec fn view(&self) -> Seq<u8> {
        self.0@
    }
}

impl PartialEq for TgcUuid {
    /// Two UUIDs are equal when their bytes are.
    fn eq(&self, other: &Self) -> (r: bool) {
        self.same(other)
    }
}

impl PartialEqSpecImpl for TgcUuid {
    open spec fn obeys_eq_spec() -> bool {
        true
    }

    open spec fn eq_spec(&self, other: &Self) -> bool {
        self@ == other@
    }
}

impl Eq for TgcUuid {}

impl Default for TgcUuid {
    /// The all-zero UUID.
    fn default() -> (r: Self)
        ensures
            r@ == Seq::new(16, |_i: int| 0u8),
    {
        let r = TgcUuid([0u8; 16]);
        assert(r@ =~= Seq::new(16, |_i: int| 0u8));
        r
    }
}

impl TgcUuid {
    /// A UUID from exactly 16 bytes; `None` for any other length.
    pub fn from(v: &[u8]) -> (r: Option<Self>)
        ensures
            r is None <==> v@.len() != 16,
            r matches Some(u) ==> u@ == v@,
    {
        if v.len() != 16 {
            return None;
        }
        let r = TgcUuid([
            v[0], v[1], v[2], v[3], v[4], v[5], v[6], v[7],
            v[8], v[9], v[10], v[11], v[12], v[13], v[14], v[15],
        ]);
        assert(r@ =~= v@);
        Some(r)
    }

    /// The raw 16 bytes.
    pub fn raw(&self) -> (r: [u8; 16])
        ensures
            r@ == self@,
    {
        self.0
    }

    /// Whether two UUIDs are the same bytes.
    pub fn same(&self, other: &Self) -> (r: bool)
        ensures
            r == (self@ == other@),
    {
        let mut i: usize = 0;
        while i < 16
            invariant
                i <= 16,
                self@.len() == 16,
                other@.len() == 16,
                forall|j: int| 0 <= j < i ==> self@[j] == other@[j],
            decreases 16 - i,
        {
            if self.0[i] != other.0[i] {
                return false;
            }
            i = i + 1;
        }
        assert(self@ =~= other@);
        true
    }
}

/// The text of a UUID's first `i` bytes: two lowercase hex digits per
/// byte, with a `-` before bytes 4, 6, 8 and 10.
pub open spec fn uuid_text(u: Seq<u8>, i: int) -> Seq<char>
    decreases i,
{
    if i <= 0 {
        Seq::empty()
    } else {
        let sep = if i - 1 == 4 || i - 1 == 6 || i - 1 == 8 || i - 1 == 10 { seq!['-'] } else { Seq::empty() };
        uuid_text(u, i - 1) + sep + seq![hex_digit(u[i - 1] / 16), hex_digit(u[i - 1] % 16)]
    }
}

/// The two lowercase hex digits of `b`, high nibble first.
fn byte_hex(b: u8) -> (r: String)
    ensures
        r@ == seq![hex_digit(b / 16), hex_digit(b % 16)],
{
    let digits = "0123456789abcdef";
    proof {
        reveal_strlit("0123456789abcdef");
        assert(digits@ == seq!['0', '1', '2', '3', '4', '5', '6', '7', '8', '9', 'a', 'b', 'c', 'd', 'e', 'f']);
        assert forall|k: u8| k < 16 implies #[trigger] digits@[k as int] == hex_digit(k) by {
            assert(k == 0 || k == 1 || k == 2 || k == 3 || k == 4 || k == 5 || k == 6 || k == 7 || k == 8 || k == 9
                || k == 10 || k == 11 || k == 12 || k == 13 || k == 14 || k == 15);
        }
    }
    let hi: usize = (b / 16) as usize;
    let lo: usize = (b % 16) as usize;
    let mut s = String::new();
    s.append(digits.substring_ascii(hi, hi + 1));
    s.append(digits.substring_ascii(lo, lo + 1));
    proof {
        assert(digits@[hi as int] == hex_digit(b / 16));
        assert(digits@[lo as int] == hex_digit(b % 16));
        assert(s@ =~= seq![hex_digit(b / 16), hex_digit(b % 16)]);
    }
    s
}

impl TgcUuid {
    /// The UUID in the usual 8-4-4-4-12 lowercase hex form (what the
    /// `Debug` rendering shows).
    pub fn to_uuid_string(&self) -> (r: String)
        ensures
            r@ == uuid_text(self@, 16),
    {
        let mut s = String::new();
        let mut i: usize = 0;
        while i < 16
            invariant
                i <= 16,
                self@.len() == 16,
                s@ == uuid_text(self@, i as int),
            decreases 16 - i,
        {
            if i == 4 || i == 6 || i == 8 || i == 10 {
                proof {
                    reveal_strlit("-");
                }
                s.append("-");
            }
            let h = byte_hex(self.0[i]);
            s.append(h.as_str());
            i = i + 1;
            proof {
                assert(s@ =~= uuid_text(self@, i as int));
            }
        }
        s
    }
}

/// The abstract value of a [`Move`]: all its fields.
pub struct MoveModel {
    pub address: u32,
    pub port: u16,
    pub unk_1: u64,
    pub unk_2: u8,
    pub player_cout: u32,
    pub player_list: Seq<TgcUuid>,
}

/// A move instruction: target address and port, and the moving players.
pub struct Move {
    address: u32,
    port: u16,
    unk_1: u64,
    unk_2: u8,
    player_cout: u32,
    player_list: Vec<TgcUuid>,
}

impl View for Move {
    type V = MoveModel;

    closed spec fn view(&self) -> MoveModel {
        MoveModel {
            address: self.address,
            port: self.port,
            unk_1: self.unk_1,
            unk_2: self.unk_2,
            player_cout: self.player_cout,
            player_list: self.player_list@,
        }
    }
}

impl Move {
    /// A move to `address:port` for the given players; the player count
    /// field holds the list length (truncated to 32 bits), `unk_1` is 0
    /// and `unk_2` is 9.
    pub fn new(address: u32, port: u16, player_list: Vec<TgcUuid>) -> (r: Self)
        ensures
            r@ == (MoveModel {
                address,
                port,
                unk_1: 0,
                unk_2: 9,
                player_cout: player_list@.len() as u32,
                player_list: player_list@,
            }),
    {
        let player_cout = player_list.len() as u32;
        Move { address, port, unk_1: 0, unk_2: 9, player_cout, player_list }
    }
}

} // verus!
