//! Texts shown with their first character in uppercase.

use vstd::prelude::*;

verus! {

/// The uppercase form of a character, which may be more than one character.
pub uninterp spec fn uppercase_of(c: char) -> Seq<char>;

/// `char::to_uppercase`, collected into a string: the uppercase form of a
/// character as the standard library maps it.
#[verifier::external_body]
fn uppercase(c: char) -> (r: String)
    ensures
        r@ == uppercase_of(c),
{
    c.to_uppercase().collect()
}

/// A text with its first character in uppercase.
pub open spec fn capitalized_of(text: Seq<char>) -> Seq<char> {
    if text.len() == 0 {
        text
    } else {
        uppercase_of(text[0]) + text.skip(1)
    }
}

/// Appends `text` with its first character in uppercase.
pub fn push_capitalized(out: &mut String, text: &str)
    ensures
        final(out)@ == old(out)@ + capitalized_of(text@),
{
    let n = text.unicode_len();
    if n == 0 {
        assert(old(out)@ + capitalized_of(text@) =~= old(out)@);
    } else {
        let first = uppercase(text.get_char(0));
        out.append(first.as_str());
        out.append(text.substring_char(1, n));
        assert(text@.subrange(1, n as int) =~= text@.skip(1));
        assert(old(out)@ + capitalized_of(text@) =~= old(out)@ + uppercase_of(text@[0]) + text@.skip(
            1,
        ));
    }
}

/// A text that is shown with its first character in uppercase.
pub struct Capitalized<'a>(pub &'a str);

impl<'a> Capitalized<'a> {
    pub fn to_string(&self) -> (s: String)
        ensures
            s@ == capitalized_of(self.0@),
    {
        let mut s = String::new();
        push_capitalized(&mut s, self.0);
        assert(Seq::<char>::empty() + capitalized_of(self.0@) =~= capitalized_of(self.0@));
        s
    }
}

} // verus!
