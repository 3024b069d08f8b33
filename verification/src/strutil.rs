//! Small verified helpers for working with strings character by character.

use vstd::prelude::*;
use vstd::string::StrSliceExecFns;
use vstd::string::StringExecFns;

verus! {

/// Compares two string slices by their character sequences.
pub fn str_eq(a: &str, b: &str) -> (r: bool)
    ensures
        r == (a@ == b@),
{
    let alen = a.unicode_len();
    let blen = b.unicode_len();
    if alen != blen {
        proof {
            assert(a@.len() != b@.len());
        }
        return false;
    }
    let mut i: usize = 0;
    while i < alen
        invariant
            i <= alen,
            alen == a@.len(),
            alen == b@.len(),
            forall|j: int| 0 <= j < i ==> a@[j] == b@[j],
        decreases alen - i,
    {
        if a.get_char(i) != b.get_char(i) {
            return false;
        }
        i += 1;
    }
    proof {
        assert(a@ =~= b@);
    }
    true
}

/// Relies on String::push: appends one character at the end of the string.
#[verifier::external_body]
pub fn push_char(s: &mut String, c: char)
    ensures
        final(s)@ == old(s)@.push(c),
{
    s.push(c)
}

/// Builds an owned string from a sequence of characters.
pub fn chars_to_string(v: &Vec<char>) -> (s: String)
    ensures
        s@ == v@,
{
    let mut s = String::new();
    let mut i: usize = 0;
    while i < v.len()
        invariant
            i <= v.len(),
            s@ =~= v@.take(i as int),
        decreases v.len() - i,
    {
        push_char(&mut s, v[i]);
        proof {
            assert(s@ =~= v@.take(i + 1 as int));
        }
        i += 1;
    }
    proof {
        assert(v@.take(v@.len() as int) =~= v@);
    }
    s
}

/// Index of the first space in a string, or -1 when there is none.
pub open spec fn first_space_index(s: Seq<char>) -> int
    decreases s.len(),
{
    if s.len() == 0 {
        -1
    } else if s[0] == ' ' {
        0
    } else {
        let rest = first_space_index(s.drop_first());
        if rest < 0 {
            -1
        } else {
            rest + 1
        }
    }
}

pub proof fn lemma_first_space_index(s: Seq<char>)
    ensures
        first_space_index(s) == -1 ==> forall|j: int| 0 <= j < s.len() ==> s[j] != ' ',
        first_space_index(s) >= 0 ==> 0 <= first_space_index(s) < s.len()
            && s[first_space_index(s)] == ' '
            && forall|j: int| 0 <= j < first_space_index(s) ==> s[j] != ' ',
    decreases s.len(),
{
    if s.len() > 0 && s[0] != ' ' {
        let rest = s.drop_first();
        lemma_first_space_index(rest);
        if first_space_index(rest) < 0 {
            assert forall|j: int| 0 <= j < s.len() implies s[j] != ' ' by {
                if j > 0 {
                    assert(rest[j - 1] == s[j]);
                    assert(rest[j - 1] != ' ');
                }
            }
        } else {
            let k = first_space_index(rest);
            assert(first_space_index(s) == k + 1);
            assert(s[k + 1] == rest[k]);
            assert forall|j: int| 0 <= j < k + 1 implies s[j] != ' ' by {
                if j > 0 {
                    assert(rest[j - 1] == s[j]);
                    assert(rest[j - 1] != ' ');
                }
            }
        }
    }
}

/// Splits a command into the word before the first space and everything
/// after it; the space itself is dropped. Without a space the whole
/// command is the first part and the second part is empty.
pub fn split_at_fist_space(command: &str) -> (r: (String, String))
    ensures
        first_space_index(command@) < 0 ==> r.0@ == command@ && r.1@ == Seq::<char>::empty(),
        first_space_index(command@) >= 0 ==> r.0@ == command@.take(first_space_index(command@))
            && r.1@ == command@.skip(first_space_index(command@) + 1),
{
    let n = command.unicode_len();
    let mut i: usize = 0;
    while i < n
        invariant
            i <= n,
            n == command@.len(),
            forall|j: int| 0 <= j < i ==> command@[j] != ' ',
        decreases n - i,
    {
        if command.get_char(i) == ' ' {
            proof {
                lemma_first_space_index(command@);
                if first_space_index(command@) < 0 {
                    assert(command@[i as int] != ' ');
                }
                assert(first_space_index(command@) == i);
            }
            let operand = command.substring_char(0, i);
            let argument = command.substring_char(i + 1, n);
            proof {
                assert(operand@ =~= command@.take(i as int));
                assert(argument@ =~= command@.skip(i + 1));
            }
            return (String::from_str(operand), String::from_str(argument));
        }
        i += 1;
    }
    proof {
        lemma_first_space_index(command@);
        if first_space_index(command@) >= 0 {
            assert(command@[first_space_index(command@)] == ' ');
        }
    }
    (String::from_str(command), String::new())
}

} // verus!
