//! What the names of files and of build directories say.
use crate::lexical::hex_value;
use crate::text::Chars;
use super::drive::hex_lower;
use super::modules::{is_module, label_of, last_place, stem};
use vstd::prelude::*;

verus! {

proof fn lemma_last_place(s: Chars, c: char, k: int, n: int)
    requires
        0 <= k < n <= s.len(),
        s[k] == c,
        forall|j: int| k < j < n ==> #[trigger] s[j] != c,
    ensures
        last_place(s, c, n) == k,
    decreases n,
{
    if n - 1 > k {
        lemma_last_place(s, c, k, n - 1);
    }
}

/// The name of a file is split at its last dot: what stands behind it says whether the file is
/// one of the standard library, and what stands before it is its label.
pub proof fn names_are_split_at_the_last_dot(front: Chars, extension: Chars)
    requires
        front.len() > 0,
        extension.len() > 0,
        forall|k: int| 0 <= k < extension.len() ==> #[trigger] extension[k] != '.',
    ensures
        is_module(front + seq!['.'] + extension) <==> extension == "xiyi"@,
        label_of(front + seq!['.'] + extension) == front,
        stem(front + seq!['.'] + extension) == front,
{
    let name = front + seq!['.'] + extension;
    let k = front.len() as int;
    assert(name[k] == '.');
    assert forall|j: int| k < j < name.len() implies #[trigger] name[j] != '.' by {
        assert(name[j] == extension[j - k - 1]);
    }
    lemma_last_place(name, '.', k, name.len() as int);
    assert(name.take(k) =~= front);
    assert(name.skip(k + 1) =~= extension);
    reveal_strlit(".");
    reveal_strlit("..");
    assert(name.len() >= 3);
}

/// How many numbers there are with that many hexadecimal digits.
pub open spec fn hex_range(width: nat) -> nat
    decreases width,
{
    if width == 0 {
        1
    } else {
        hex_range((width - 1) as nat) * 16
    }
}

/// The hexadecimal digits of a number that has no more of them spell the number.
pub proof fn hexadecimal_digits_spell_the_number(n: nat, width: nat)
    requires
        n < hex_range(width),
    ensures
        hex_lower(n, width).len() == width,
        hex_value(hex_lower(n, width)) == n,
    decreases width,
{
    if width > 0 {
        let w = (width - 1) as nat;
        let q = n / 16;
        let d = n % 16;
        assert(hex_range(width) == hex_range(w) * 16);
        assert(q < hex_range(w));
        assert(n == q * 16 + d);
        hexadecimal_digits_spell_the_number(q, w);
        let s = hex_lower(n, width);
        assert(s.drop_last() =~= hex_lower(q, w));
    }
}

} // verus!
