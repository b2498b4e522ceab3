//! One line of the dump: sixteen byte slots rendered as eight halfword groups.
use vstd::prelude::*;
use vstd::string::*;

use crate::hex::{hex_padded, lemma_hex_padded_len, pow16, push_hex};

verus! {

/// Byte slots in one line.
pub const BYTES_PER_LINE: usize = 16;

/// Groups of two slots in one line.
pub const GROUPS_PER_LINE: usize = 8;

/// The four characters of group `i`, of a buffer whose first `n` bytes are
/// valid: both bytes as a little-endian halfword, a lone trailing byte with a
/// zero high byte, or four spaces where no byte is valid.
pub open spec fn group_token(buf: Seq<u8>, n: nat, i: nat) -> Seq<char> {
    if 2 * i + 1 < n {
        hex_padded(buf[2 * i + 1int] as nat * 256 + buf[2 * i as int] as nat, 4)
    } else if 2 * i < n {
        hex_padded(buf[2 * i as int] as nat, 4)
    } else {
        seq![' ', ' ', ' ', ' ']
    }
}

/// The first `k` groups, joined by single spaces.
pub open spec fn groups_joined(buf: Seq<u8>, n: nat, k: nat) -> Seq<char>
    decreases k,
{
    if k == 0 {
        seq![]
    } else if k == 1 {
        group_token(buf, n, 0)
    } else {
        groups_joined(buf, n, (k - 1) as nat) + seq![' '] + group_token(buf, n, (k - 1) as nat)
    }
}

/// The data part of a line: all eight groups joined by single spaces.
pub open spec fn hexdump_line(buf: Seq<u8>, n: nat) -> Seq<char> {
    groups_joined(buf, n, GROUPS_PER_LINE as nat)
}

/// Every group is four characters wide.
pub proof fn lemma_group_token_len(buf: Seq<u8>, n: nat, i: nat)
    ensures
        group_token(buf, n, i).len() == 4,
{
    reveal_with_fuel(pow16, 5);
    if 2 * i + 1 < n {
        let lo = buf[2 * i as int] as nat;
        let hi = buf[2 * i + 1int] as nat;
        assert(hi * 256 + lo < 65536) by (nonlinear_arith)
            requires
                hi < 256,
                lo < 256,
        ;
        lemma_hex_padded_len(hi * 256 + lo, 4);
    } else if 2 * i < n {
        lemma_hex_padded_len(buf[2 * i as int] as nat, 4);
    }
}

/// `k` groups take `5k - 1` characters, and group `i` stands at `5i`.
proof fn lemma_groups_joined_layout(buf: Seq<u8>, n: nat, k: nat)
    requires
        k >= 1,
    ensures
        groups_joined(buf, n, k).len() == 5 * k - 1,
        forall|i: int|
            0 <= i < k ==> #[trigger] groups_joined(buf, n, k).subrange(5 * i, 5 * i + 4)
                == group_token(buf, n, i as nat),
        forall|i: int| 1 <= i < k ==> #[trigger] groups_joined(buf, n, k)[5 * i - 1] == ' ',
    decreases k,
{
    lemma_group_token_len(buf, n, (k - 1) as nat);
    if k == 1 {
        assert(groups_joined(buf, n, 1).subrange(0, 4) =~= group_token(buf, n, 0));
    } else {
        lemma_groups_joined_layout(buf, n, (k - 1) as nat);
        let prev = groups_joined(buf, n, (k - 1) as nat);
        let cur = groups_joined(buf, n, k);
        assert forall|i: int| 0 <= i < k implies #[trigger] cur.subrange(5 * i, 5 * i + 4)
            == group_token(buf, n, i as nat) by {
            if i < k - 1 {
                assert(cur.subrange(5 * i, 5 * i + 4) =~= prev.subrange(5 * i, 5 * i + 4));
            } else {
                assert(cur.subrange(5 * i, 5 * i + 4) =~= group_token(buf, n, i as nat));
            }
        }
        assert forall|i: int| 1 <= i < k implies #[trigger] cur[5 * i - 1] == ' ' by {
            if i < k - 1 {
                assert(cur[5 * i - 1] == prev[5 * i - 1]);
            }
        }
    }
}

/// Where both slots of group `i` hold data, with bytes `lo` then `hi`, the
/// group reads `hi * 256 + lo` as four lowercase hex digits.
pub proof fn lemma_group_little_endian(buf: Seq<u8>, n: nat, i: nat)
    requires
        i < GROUPS_PER_LINE,
        2 * i + 1 < n,
    ensures
        hexdump_line(buf, n).subrange(5 * i as int, 5 * i + 4int) == hex_padded(
            buf[2 * i + 1int] as nat * 256 + buf[2 * i as int] as nat,
            4,
        ),
{
    lemma_groups_joined_layout(buf, n, GROUPS_PER_LINE as nat);
    assert(hexdump_line(buf, n).subrange(5 * i as int, 5 * i + 4int) == group_token(buf, n, i));
}

/// With no valid byte, `k` groups are `5k - 1` spaces.
proof fn lemma_groups_joined_blank(buf: Seq<u8>, k: nat)
    requires
        k >= 1,
    ensures
        groups_joined(buf, 0, k) == Seq::new((5 * k - 1) as nat, |j: int| ' '),
    decreases k,
{
    if k == 1 {
        assert(groups_joined(buf, 0, 1) =~= Seq::new(4, |j: int| ' '));
    } else {
        lemma_groups_joined_blank(buf, (k - 1) as nat);
        assert(groups_joined(buf, 0, k) =~= Seq::new((5 * k - 1) as nat, |j: int| ' '));
    }
}

/// With no valid byte the line is eight blank groups: 39 spaces.
pub proof fn lemma_empty_line_blank(buf: Seq<u8>)
    ensures
        hexdump_line(buf, 0) == Seq::new(39, |k: int| ' '),
{
    lemma_groups_joined_blank(buf, GROUPS_PER_LINE as nat);
}

/// The first `k` groups depend on the first `n` bytes alone.
proof fn lemma_groups_joined_valid_bytes(a: Seq<u8>, b: Seq<u8>, n: nat, k: nat)
    requires
        n <= a.len(),
        n <= b.len(),
        a.take(n as int) == b.take(n as int),
    ensures
        groups_joined(a, n, k) == groups_joined(b, n, k),
    decreases k,
{
    if k > 0 {
        let i = (k - 1) as nat;
        if 2 * i + 1 < n {
            assert(a[2 * i + 1int] == a.take(n as int)[2 * i + 1int]);
            assert(b[2 * i + 1int] == b.take(n as int)[2 * i + 1int]);
        }
        if 2 * i < n {
            assert(a[2 * i as int] == a.take(n as int)[2 * i as int]);
            assert(b[2 * i as int] == b.take(n as int)[2 * i as int]);
        }
        assert(group_token(a, n, i) == group_token(b, n, i));
        lemma_groups_joined_valid_bytes(a, b, n, i);
    }
}

/// A line is determined by its valid bytes: two buffers that agree on their
/// first `n` bytes (in particular, two identical buffers) give the same line.
pub proof fn lemma_line_deterministic(a: Seq<u8>, b: Seq<u8>, n: nat)
    requires
        n <= a.len(),
        n <= b.len(),
        a.take(n as int) == b.take(n as int),
    ensures
        hexdump_line(a, n) == hexdump_line(b, n),
{
    lemma_groups_joined_valid_bytes(a, b, n, GROUPS_PER_LINE as nat);
}

/// Renders the first `n` bytes of `buf` as eight space-separated groups of
/// four lowercase hex digits, little-endian, padded with blank groups.
pub fn convert_to_hexdump_line(buf: &[u8], n: usize) -> (line: String)
    requires
        n <= BYTES_PER_LINE,
        n <= buf@.len(),
    ensures
        line@ == hexdump_line(buf@, n as nat),
        line@.len() == 39,
{
    let mut line = String::new();
    let mut i: usize = 0;
    while i < GROUPS_PER_LINE
        invariant
            i <= GROUPS_PER_LINE,
            n <= BYTES_PER_LINE,
            n <= buf@.len(),
            line@ == groups_joined(buf@, n as nat, i as nat),
        decreases GROUPS_PER_LINE - i,
    {
        let ghost before = line@;
        if i > 0 {
            line.append(" ");
        }
        let j: usize = 2 * i;
        if j + 1 < n {
            let v: u64 = (buf[j + 1] as u64) * 256 + buf[j] as u64;
            push_hex(&mut line, v, 4);
        } else if j < n {
            push_hex(&mut line, buf[j] as u64, 4);
        } else {
            line.append("    ");
        }
        proof {
            reveal_strlit(" ");
            reveal_strlit("    ");
        }
        assert(line@ =~= groups_joined(buf@, n as nat, (i + 1) as nat));
        i = i + 1;
    }
    proof {
        lemma_groups_joined_layout(buf@, n as nat, 8);
    }
    line
}

} // verus!
