//! Permissions, as bits and as the letters that a user types.

use vstd::prelude::*;

use crate::text::chars_of;

verus! {

broadcast use vstd::string::group_string_axioms;

/// The bits that the protocol has for each permission.
#[derive(Clone, Copy)]
pub struct Permissions {
    pub read: u8,
    pub write: u8,
    pub manage_channels: u8,
    pub manage_messages: u8,
}

/// Whether a bitmask has all bits of a permission.
pub open spec fn allows(bitmask: u8, perm: u8) -> bool {
    bitmask & perm == perm
}

/// A letter where a bitmask has a permission.
pub open spec fn letter_if(bitmask: u8, perm: u8, letter: char) -> Seq<char> {
    if allows(bitmask, perm) {
        seq![letter]
    } else {
        seq![]
    }
}

/// The letters for a bitmask, behind a plus sign unless it is zero.
pub open spec fn perm_string(perms: Permissions, bitmask: u8) -> Seq<char> {
    (if bitmask != 0 {
        seq!['+']
    } else {
        seq![]
    }) + letter_if(bitmask, perms.read, 'r') + letter_if(bitmask, perms.write, 'w') + letter_if(
        bitmask,
        perms.manage_channels,
        'c',
    ) + letter_if(bitmask, perms.manage_messages, 'm')
}

/// Writes a bitmask as letters.
pub fn to_perm_string(bitmask: u8, perms: &Permissions) -> (res: String)
    ensures
        res@ == perm_string(*perms, bitmask),
{
    let mut result = String::new();
    if bitmask != 0 {
        result.push('+');
    }
    if bitmask & perms.read == perms.read {
        result.push('r');
    }
    if bitmask & perms.write == perms.write {
        result.push('w');
    }
    if bitmask & perms.manage_channels == perms.manage_channels {
        result.push('c');
    }
    if bitmask & perms.manage_messages == perms.manage_messages {
        result.push('m');
    }
    assert(result@ =~= perm_string(*perms, bitmask));
    result
}

/// The permission that a letter stands for.
pub open spec fn perm_of(perms: Permissions, letter: char) -> Option<u8> {
    if letter == 'r' {
        Some(perms.read)
    } else if letter == 'w' {
        Some(perms.write)
    } else if letter == 'c' {
        Some(perms.manage_channels)
    } else if letter == 'm' {
        Some(perms.manage_messages)
    } else {
        None
    }
}

/// What becomes of a bitmask when letters are applied to it from left to right: a plus
/// sign turns to granting, a minus sign to revoking, a space does nothing, and any other
/// character ends it all. Whether the end was reached, and the bitmask by then.
pub open spec fn applied(
    perms: Permissions,
    input: Seq<char>,
    bitmask: u8,
    granting: bool,
) -> (bool, u8)
    decreases input.len(),
{
    if input.len() == 0 {
        (true, bitmask)
    } else if input[0] == '+' {
        applied(perms, input.skip(1), bitmask, true)
    } else if input[0] == '-' {
        applied(perms, input.skip(1), bitmask, false)
    } else if input[0] == ' ' {
        applied(perms, input.skip(1), bitmask, granting)
    } else {
        match perm_of(perms, input[0]) {
            Some(perm) => applied(
                perms,
                input.skip(1),
                if granting {
                    bitmask | perm
                } else {
                    bitmask & !perm
                },
                granting,
            ),
            None => (false, bitmask),
        }
    }
}

/// Applies letters to a bitmask. Where a character stands for nothing the result is
/// `false`, and what stands before it has been applied.
pub fn from_perm_string(input: &str, bitmask: &mut u8, perms: &Permissions) -> (res: bool)
    ensures
        (res, *final(bitmask)) == applied(*perms, input@, *old(bitmask), true),
{
    let chars = chars_of(input);
    let mut granting: bool = true;
    let mut mask: u8 = *bitmask;
    let mut i: usize = 0;
    assert(input@.skip(0) =~= input@);
    while i < chars.len()
        invariant
            chars@ == input@,
            i <= chars@.len(),
            applied(*perms, input@, *old(bitmask), true) == applied(
                *perms,
                input@.skip(i as int),
                mask,
                granting,
            ),
        decreases chars@.len() - i,
    {
        let c = chars[i];
        assert(input@.skip(i as int).skip(1) =~= input@.skip(i + 1));
        i = i + 1;
        let perm: u8 = match c {
            '+' => {
                granting = true;
                continue ;
            },
            '-' => {
                granting = false;
                continue ;
            },
            'r' => perms.read,
            'w' => perms.write,
            'c' => perms.manage_channels,
            'm' => perms.manage_messages,
            ' ' => {
                continue ;
            },
            _ => {
                *bitmask = mask;
                return false;
            },
        };
        if granting {
            mask = mask | perm;
        } else {
            mask = mask & !perm;
        }
    }
    *bitmask = mask;
    true
}

/// Whether every permission is one bit.
pub open spec fn perms_are_bits(perms: Permissions) -> bool {
    &&& is_bit(perms.read)
    &&& is_bit(perms.write)
    &&& is_bit(perms.manage_channels)
    &&& is_bit(perms.manage_messages)
}

/// Whether a number has exactly one bit.
pub open spec fn is_bit(n: u8) -> bool {
    n == 1 || n == 2 || n == 4 || n == 8 || n == 16 || n == 32 || n == 64 || n == 128
}

/// All permissions together.
pub open spec fn all_perms(perms: Permissions) -> u8 {
    perms.read | perms.write | perms.manage_channels | perms.manage_messages
}

/// The permissions that a bitmask has, each whole or not at all.
pub open spec fn granted(perms: Permissions, bitmask: u8) -> u8 {
    (if allows(bitmask, perms.read) {
        perms.read
    } else {
        0
    }) | (if allows(bitmask, perms.write) {
        perms.write
    } else {
        0
    }) | (if allows(bitmask, perms.manage_channels) {
        perms.manage_channels
    } else {
        0
    }) | (if allows(bitmask, perms.manage_messages) {
        perms.manage_messages
    } else {
        0
    })
}

proof fn lemma_letter(
    perms: Permissions,
    mask: u8,
    perm: u8,
    letter: char,
    rest: Seq<char>,
    target: u8,
)
    requires
        perm_of(perms, letter) == Some(perm),
    ensures
        applied(perms, letter_if(mask, perm, letter) + rest, target, true) == applied(
            perms,
            rest,
            target | (if allows(mask, perm) {
                perm
            } else {
                0
            }),
            true,
        ),
{
    let input = letter_if(mask, perm, letter) + rest;
    if allows(mask, perm) {
        assert(input[0] == letter);
        assert(input.skip(1) =~= rest);
    } else {
        assert(input =~= rest);
        assert(target | 0 == target) by (bit_vector);
    }
}

/// What a bitmask is written as grants the same permissions when it is applied, and leaves
/// all others as they are.
pub proof fn law_written_perms_grant(perms: Permissions, written: u8, bitmask: u8)
    ensures
        applied(perms, perm_string(perms, written), bitmask, true) == (
            true,
            bitmask | granted(perms, written),
        ),
{
    let r = letter_if(written, perms.read, 'r');
    let w = letter_if(written, perms.write, 'w');
    let c = letter_if(written, perms.manage_channels, 'c');
    let m = letter_if(written, perms.manage_messages, 'm');
    let end = Seq::<char>::empty();
    let sign = if written != 0 { seq!['+'] } else { seq![] };
    let letters = r + (w + (c + (m + end)));
    let string = perm_string(perms, written);
    assert(string =~= sign + letters);
    if written != 0 {
        assert(string.skip(1) =~= letters);
    } else {
        assert(string =~= letters);
    }
    let pr = if allows(written, perms.read) { perms.read } else { 0 };
    let pw = if allows(written, perms.write) { perms.write } else { 0 };
    let pc = if allows(written, perms.manage_channels) { perms.manage_channels } else { 0 };
    let pm = if allows(written, perms.manage_messages) { perms.manage_messages } else { 0 };
    lemma_letter(perms, written, perms.read, 'r', w + (c + (m + end)), bitmask);
    lemma_letter(perms, written, perms.write, 'w', c + (m + end), bitmask | pr);
    lemma_letter(perms, written, perms.manage_channels, 'c', m + end, bitmask | pr | pw);
    lemma_letter(perms, written, perms.manage_messages, 'm', end, bitmask | pr | pw | pc);
    assert(bitmask | pr | pw | pc | pm == bitmask | (pr | pw | pc | pm)) by (bit_vector);
}

/// Where every permission is one bit, a bitmask of permissions is read back from what it
/// is written as.
pub proof fn law_perms_read_back(perms: Permissions, bitmask: u8)
    requires
        perms_are_bits(perms),
    ensures
        applied(perms, perm_string(perms, bitmask), 0, true) == (
            true,
            bitmask & all_perms(perms),
        ),
{
    law_written_perms_grant(perms, bitmask, 0);
    let r = perms.read;
    let w = perms.write;
    let c = perms.manage_channels;
    let m = perms.manage_messages;
    lemma_bit(bitmask, r);
    lemma_bit(bitmask, w);
    lemma_bit(bitmask, c);
    lemma_bit(bitmask, m);
    assert(0 | ((bitmask & r) | (bitmask & w) | (bitmask & c) | (bitmask & m)) == bitmask & (r | w
        | c | m)) by (bit_vector);
}

proof fn lemma_bit(bitmask: u8, bit: u8)
    requires
        is_bit(bit),
    ensures
        (if allows(bitmask, bit) {
            bit
        } else {
            0
        }) == bitmask & bit,
{
    assert((bit == 1 || bit == 2 || bit == 4 || bit == 8 || bit == 16 || bit == 32 || bit == 64
        || bit == 128) ==> bitmask & bit == bit || bitmask & bit == 0) by (bit_vector);
}

/// Whatever is typed, bits that belong to no permission stay as they are.
pub proof fn law_other_bits_stay(
    perms: Permissions,
    input: Seq<char>,
    bitmask: u8,
    granting: bool,
)
    ensures
        applied(perms, input, bitmask, granting).1 & !all_perms(perms) == bitmask & !all_perms(
            perms,
        ),
    decreases input.len(),
{
    if input.len() > 0 {
        if input[0] == '+' {
            law_other_bits_stay(perms, input.skip(1), bitmask, true);
        } else if input[0] == '-' {
            law_other_bits_stay(perms, input.skip(1), bitmask, false);
        } else if input[0] == ' ' {
            law_other_bits_stay(perms, input.skip(1), bitmask, granting);
        } else {
            match perm_of(perms, input[0]) {
                Some(perm) => {
                    let next = if granting { bitmask | perm } else { bitmask & !perm };
                    law_other_bits_stay(perms, input.skip(1), next, granting);
                    let r = perms.read;
                    let w = perms.write;
                    let c = perms.manage_channels;
                    let m = perms.manage_messages;
                    assert((perm == r || perm == w || perm == c || perm == m) ==> (bitmask | perm)
                        & !(r | w | c | m) == bitmask & !(r | w | c | m) && (bitmask & !perm) & !(r
                        | w | c | m) == bitmask & !(r | w | c | m)) by (bit_vector);
                },
                None => {},
            }
        }
    }
}

/// Whether the last sign of a text is a minus.
pub open spec fn ends_revoking(input: Seq<char>) -> bool {
    exists|i: int|
        {
            &&& 0 <= i < input.len()
            &&& #[trigger] input[i] == '-'
            &&& forall|j: int| i < j < input.len() ==> #[trigger] input[j] != '+'
        }
}

/// What is typed is taken letter by letter, and the last sign before a letter decides
/// whether it grants or revokes; without a sign it grants.
pub proof fn law_last_letter_counts(
    perms: Permissions,
    input: Seq<char>,
    letter: char,
    bitmask: u8,
)
    ensures
        applied(perms, seq![], bitmask, true) == (true, bitmask),
        ({
            let before = applied(perms, input, bitmask, true);
            let after = applied(perms, input.push(letter), bitmask, true);
            let change = |perm: u8|
                if ends_revoking(input) {
                    before.1 & !perm
                } else {
                    before.1 | perm
                };
            if !before.0 {
                after == before
            } else if letter == 'r' {
                after == (true, change(perms.read))
            } else if letter == 'w' {
                after == (true, change(perms.write))
            } else if letter == 'c' {
                after == (true, change(perms.manage_channels))
            } else if letter == 'm' {
                after == (true, change(perms.manage_messages))
            } else if letter == '+' || letter == '-' || letter == ' ' {
                after == before
            } else {
                after == (false, before.1)
            }
        }),
{
    lemma_last_letter(perms, input, letter, bitmask, true);
}

/// Whether granting is turned on behind a text, if it was `granting` before.
spec fn grants_behind(input: Seq<char>, granting: bool) -> bool
    decreases input.len(),
{
    if input.len() == 0 {
        granting
    } else if input.last() == '+' {
        true
    } else if input.last() == '-' {
        false
    } else {
        grants_behind(input.drop_last(), granting)
    }
}

proof fn lemma_grants_behind(input: Seq<char>)
    ensures
        grants_behind(input, true) == !ends_revoking(input),
    decreases input.len(),
{
    if input.len() > 0 {
        let rest = input.drop_last();
        lemma_grants_behind(rest);
        if input.last() == '-' {
            assert(input[input.len() - 1] == '-');
        } else if input.last() == '+' {
            assert(input[input.len() - 1] == '+');
        } else {
            if ends_revoking(rest) {
                let i = choose|i: int|
                    0 <= i < rest.len() && #[trigger] rest[i] == '-' && forall|j: int|
                        i < j < rest.len() ==> #[trigger] rest[j] != '+';
                assert(input[i] == '-');
                assert forall|j: int| i < j < input.len() implies #[trigger] input[j] != '+' by {
                    if j < rest.len() {
                        assert(rest[j] != '+');
                    }
                }
            }
            if ends_revoking(input) {
                let i = choose|i: int|
                    0 <= i < input.len() && #[trigger] input[i] == '-' && forall|j: int|
                        i < j < input.len() ==> #[trigger] input[j] != '+';
                assert(rest[i] == '-');
                assert forall|j: int| i < j < rest.len() implies #[trigger] rest[j] != '+' by {
                    assert(input[j] != '+');
                }
            }
        }
    }
}

proof fn lemma_grants_skip(input: Seq<char>, granting: bool)
    requires
        input.len() > 0,
    ensures
        grants_behind(input, granting) == grants_behind(
            input.skip(1),
            if input[0] == '+' {
                true
            } else if input[0] == '-' {
                false
            } else {
                granting
            },
        ),
    decreases input.len(),
{
    if input.len() > 1 {
        lemma_grants_skip(input.drop_last(), granting);
        assert(input.skip(1).drop_last() =~= input.drop_last().skip(1));
        assert(input.skip(1).last() == input.last());
    } else {
        assert(input.drop_last() =~= seq![]);
        assert(input.skip(1) =~= seq![]);
        reveal_with_fuel(grants_behind, 2);
    }
}

proof fn lemma_last_letter(
    perms: Permissions,
    input: Seq<char>,
    letter: char,
    bitmask: u8,
    granting: bool,
)
    ensures
        ({
            let before = applied(perms, input, bitmask, granting);
            let after = applied(perms, input.push(letter), bitmask, granting);
            let on = grants_behind(input, granting);
            if !before.0 {
                after == before
            } else if letter == '+' || letter == '-' || letter == ' ' {
                after == before
            } else {
                match perm_of(perms, letter) {
                    Some(perm) => after == (
                        true,
                        if on {
                            before.1 | perm
                        } else {
                            before.1 & !perm
                        },
                    ),
                    None => after == (false, before.1),
                }
            }
        }),
        granting ==> grants_behind(input, true) == !ends_revoking(input),
    decreases input.len(),
{
    lemma_grants_behind(input);
    let longer = input.push(letter);
    if input.len() == 0 {
        assert(longer.skip(1) =~= seq![]);
        reveal_with_fuel(applied, 2);
    } else {
        assert(longer.skip(1) =~= input.skip(1).push(letter));
        assert(longer[0] == input[0]);
        lemma_grants_skip(input, granting);
        if input[0] == '+' {
            lemma_last_letter(perms, input.skip(1), letter, bitmask, true);
        } else if input[0] == '-' {
            lemma_last_letter(perms, input.skip(1), letter, bitmask, false);
        } else if input[0] == ' ' {
            lemma_last_letter(perms, input.skip(1), letter, bitmask, granting);
        } else {
            match perm_of(perms, input[0]) {
                Some(perm) => {
                    let next = if granting { bitmask | perm } else { bitmask & !perm };
                    lemma_last_letter(perms, input.skip(1), letter, next, granting);
                },
                None => {},
            }
        }
    }
}

/// A bitmask is written as those of the letters `r`, `w`, `c` and `m`, in this order, whose
/// permissions it has in full, behind a plus sign unless it is zero.
pub proof fn law_letters_tell_permissions(perms: Permissions, bitmask: u8)
    ensures
        ({
            let shown = |c: char|
                {
                    ||| c == '+' && bitmask != 0
                    ||| c == 'r' && bitmask & perms.read == perms.read
                    ||| c == 'w' && bitmask & perms.write == perms.write
                    ||| c == 'c' && bitmask & perms.manage_channels == perms.manage_channels
                    ||| c == 'm' && bitmask & perms.manage_messages == perms.manage_messages
                };
            perm_string(perms, bitmask) == seq!['+', 'r', 'w', 'c', 'm'].filter(shown)
        }),
{
    let shown = |c: char|
        {
            ||| c == '+' && bitmask != 0
            ||| c == 'r' && bitmask & perms.read == perms.read
            ||| c == 'w' && bitmask & perms.write == perms.write
            ||| c == 'c' && bitmask & perms.manage_channels == perms.manage_channels
            ||| c == 'm' && bitmask & perms.manage_messages == perms.manage_messages
        };
    let all = seq!['+', 'r', 'w', 'c', 'm'];
    reveal_with_fuel(Seq::filter, 6);
    assert(all.drop_last() =~= seq!['+', 'r', 'w', 'c']);
    assert(seq!['+', 'r', 'w', 'c'].drop_last() =~= seq!['+', 'r', 'w']);
    assert(seq!['+', 'r', 'w'].drop_last() =~= seq!['+', 'r']);
    assert(seq!['+', 'r'].drop_last() =~= seq!['+']);
    assert(seq!['+'].drop_last() =~= seq![]);
    assert(perm_string(perms, bitmask) =~= all.filter(shown));
}

} // verus!
