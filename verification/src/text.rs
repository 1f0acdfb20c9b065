//! Rendering a container as text.

use vstd::prelude::*;
use crate::bvector::BVector;

verus! {

/// The text of a bit vector: one character per position in ascending
/// order, `'1'` for a set bit and `'0'` for a cleared one, after the prefix
/// `0b` where `alternate` asks for it.
pub open spec fn rendered(s: Seq<bool>, alternate: bool) -> Seq<char> {
    let digits = Seq::new(
        s.len(),
        |i: int|
            if s[i] {
                '1'
            } else {
                '0'
            },
    );
    if alternate {
        seq!['0', 'b'] + digits
    } else {
        digits
    }
}

/// `String::push` of the standard library: the string afterwards is the
/// string before with `c` appended. Taken from its documentation, not proved.
#[verifier::external_body]
fn push_char(text: &mut String, c: char)
    ensures
        final(text)@ == old(text)@.push(c),
{
    text.push(c)
}

impl BVector {
    /// Renders the container as binary digits, with the prefix `0b` where
    /// `alternate` is set.
    pub fn fmt(&self, alternate: bool) -> (text: String)
        ensures
            text@ == rendered(self@, alternate),
    {
        let mut text = String::new();
        if alternate {
            push_char(&mut text, '0');
            push_char(&mut text, 'b');
        }
        let ghost prefix = text@;
        let len = self.len();
        let mut i: usize = 0;
        assert(prefix =~= rendered(Seq::<bool>::empty(), alternate));
        while i < len
            invariant
                i <= len,
                len == self@.len(),
                prefix == rendered(Seq::<bool>::empty(), alternate),
                text@ == rendered(self@.take(i as int), alternate),
            decreases len - i,
        {
            let digit = if *self.index(i) {
                '1'
            } else {
                '0'
            };
            push_char(&mut text, digit);
            assert(text@ =~= rendered(self@.take(i + 1), alternate));
            i += 1;
        }
        assert(self@.take(len as int) =~= self@);
        text
    }
}

} // verus!
