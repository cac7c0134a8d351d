//! Character sequences: decimal digits, prefixes counted in UTF-8 bytes, and
//! the few string operations that the other modules build on.

use vstd::prelude::*;

verus! {

/// `String::push` appends one character to the end of the string.
pub assume_specification[ String::push ](s: &mut String, c: char)
    ensures
        final(s)@ == old(s)@.push(c),
;

/// The character of a decimal digit.
pub open spec fn digit(d: int) -> char {
    (d + 48) as char
}

/// The last `width` decimal digits of `n`, padded with zeros on the left.
pub open spec fn digits(n: int, width: nat) -> Seq<char>
    decreases width,
{
    if width == 0 {
        seq![]
    } else {
        digits(n / 10, (width - 1) as nat).push(digit(n % 10))
    }
}

/// Is `c` one of `0` to `9`?
pub open spec fn is_digit(c: char) -> bool {
    48 <= c as int <= 57
}

/// The number that a run of decimal digits denotes.
pub open spec fn number(s: Seq<char>) -> int
    decreases s.len(),
{
    if s.len() == 0 {
        0
    } else {
        number(s.drop_last()) * 10 + (s.last() as int - 48)
    }
}

/// How many bytes `c` takes in UTF-8.
pub open spec fn utf8_len(c: char) -> nat {
    if (c as int) < 0x80 {
        1
    } else if (c as int) < 0x800 {
        2
    } else if (c as int) < 0x10000 {
        3
    } else {
        4
    }
}

/// How many bytes `s` takes in UTF-8.
pub open spec fn byte_len(s: Seq<char>) -> nat
    decreases s.len(),
{
    if s.len() == 0 {
        0
    } else {
        byte_len(s.drop_last()) + utf8_len(s.last())
    }
}

/// The first `n` bytes of `s` where they end between two characters, else
/// the whole of `s`.
pub open spec fn byte_prefix(s: Seq<char>, n: nat) -> Seq<char> {
    if exists|k: int| 0 <= k <= s.len() && #[trigger] byte_len(s.take(k)) == n {
        s.take(choose|k: int| 0 <= k <= s.len() && #[trigger] byte_len(s.take(k)) == n)
    } else {
        s
    }
}

/// Longer prefixes take more bytes.
pub proof fn lemma_byte_len_increases(s: Seq<char>, i: int, j: int)
    requires
        0 <= i < j <= s.len(),
    ensures
        byte_len(s.take(i)) < byte_len(s.take(j)),
    decreases j,
{
    assert(s.take(j).drop_last() =~= s.take(j - 1));
    if i < j - 1 {
        lemma_byte_len_increases(s, i, j - 1);
    }
}

/// A text of ASCII characters takes one byte for each.
pub proof fn lemma_ascii(s: Seq<char>)
    requires
        forall|i: int| 0 <= i < s.len() ==> (#[trigger] s[i]) as int <= 127,
    ensures
        byte_len(s) == s.len(),
    decreases s.len(),
{
    if s.len() > 0 {
        lemma_ascii(s.drop_last());
    }
}

/// An ASCII text is its own prefix of as many bytes.
pub proof fn lemma_ascii_prefix(s: Seq<char>)
    requires
        forall|i: int| 0 <= i < s.len() ==> (#[trigger] s[i]) as int <= 127,
    ensures
        byte_prefix(s, s.len()) == s,
{
    let whole = s.len() as int;
    assert(s.take(whole) =~= s);
    lemma_ascii(s);
    assert(byte_len(s.take(whole)) == s.len());
    let k = choose|k: int| 0 <= k <= s.len() && #[trigger] byte_len(s.take(k)) == s.len();
    if k < whole {
        lemma_byte_len_increases(s, k, whole);
    }
}

/// Cuts `s` after `n` bytes where that is a character boundary.
pub fn cut_bytes(s: &str, n: u8) -> (r: &str)
    ensures
        r@ == byte_prefix(s@, n as nat),
{
    let mut used: u16 = 0;
    let mut k: usize = 0;
    let len: usize = s.unicode_len();
    proof {
        assert(s@.take(0) =~= Seq::<char>::empty());
    }
    while used < n as u16 && k < len
        invariant
            k <= len,
            len == s@.len(),
            used == byte_len(s@.take(k as int)),
            used <= n + 3,
            k == 0 || byte_len(s@.take(k - 1)) < n,
        decreases len - k,
    {
        let c: char = s.get_char(k);
        let w: u16 = if (c as u32) < 0x80 {
            1
        } else if (c as u32) < 0x800 {
            2
        } else if (c as u32) < 0x10000 {
            3
        } else {
            4
        };
        proof {
            assert(s@.take(k + 1).drop_last() =~= s@.take(k as int));
        }
        used = used + w;
        k = k + 1;
    }
    proof {
        assert forall|j: int| 0 <= j <= s@.len() && #[trigger] byte_len(s@.take(j)) == n implies j
            == k && used == n by {
            if j < k {
                if j < k - 1 {
                    lemma_byte_len_increases(s@, j, k - 1);
                }
            } else if k < j {
                lemma_byte_len_increases(s@, k as int, j);
            }
        }
    }
    if used == n as u16 {
        assert(byte_len(s@.take(k as int)) == n);
        s.substring_char(0, k)
    } else {
        s
    }
}

/// A prefix of some bytes ends between two characters, or it is the whole text:
/// where the first characters take as many bytes, it is these.
pub proof fn prefixes_end_between_characters(front: Seq<char>, back: Seq<char>, n: nat)
    ensures
        byte_len(front) == n ==> byte_prefix(front + back, n) == front,
        byte_len(front) < n ==> byte_prefix(front, n) == front,
        (forall|k: int|
            0 <= k <= front.len() ==> #[trigger] byte_len(front.take(k)) != n) ==> byte_prefix(
            front,
            n,
        ) == front,
{
    let s = front + back;
    let l = front.len() as int;
    assert(s.take(l) =~= front);
    if byte_len(front) == n {
        let k = choose|k: int| 0 <= k <= s.len() && #[trigger] byte_len(s.take(k)) == n;
        if k < l {
            lemma_byte_len_increases(s, k, l);
        } else if l < k {
            lemma_byte_len_increases(s, l, k);
        }
    }
    if byte_len(front) < n {
        assert(front.take(l) =~= front);
        assert forall|k: int| 0 <= k <= front.len() implies #[trigger] byte_len(front.take(k))
            != n by {
            if k < l {
                lemma_byte_len_increases(front, k, l);
            }
        }
    }
}

/// A character takes one to four bytes, by its code point, and a text the bytes
/// of its characters.
pub proof fn bytes_add_up(a: Seq<char>, b: Seq<char>, c: char)
    ensures
        byte_len(a + b) == byte_len(a) + byte_len(b),
        byte_len(seq![c]) == if (c as int) <= 0x7f {
            1nat
        } else if (c as int) <= 0x7ff {
            2
        } else if (c as int) <= 0xffff {
            3
        } else {
            4
        },
    decreases b.len(),
{
    reveal_with_fuel(byte_len, 2);
    assert(seq![c].drop_last() =~= seq![]);
    assert(seq![c].last() == c);
    if b.len() == 0 {
        assert(a + b =~= a);
    } else {
        bytes_add_up(a, b.drop_last(), c);
        assert((a + b).drop_last() =~= a + b.drop_last());
    }
}

} // verus!
