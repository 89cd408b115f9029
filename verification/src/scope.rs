//! Variables with their values.

use crate::strings::same;
use crate::token::Name;
use vstd::prelude::*;
use vstd::string::StringSliceAdditionalSpecFns;
use vstd::utf8::encode_utf8;

verus! {

/// A variable with its value.
#[derive(Debug, PartialEq)]
pub struct Binding {
    /// Whether the variable is handed to the commands in their environment.
    pub export: bool,
    pub name: Name,
    pub value: String,
}

/// The variables that have a value, in the order in which they got it.
#[derive(Debug, PartialEq)]
pub struct Scope {
    pub bindings: Vec<Binding>,
}

/// The width of the column of names in a listing of the first `n`
/// bindings: the greatest length of a name, counted in bytes.
pub open spec fn column_width(bindings: Seq<Binding>, n: nat) -> nat
    decreases n,
{
    if n == 0 || n > bindings.len() {
        0
    } else {
        let before = column_width(bindings, (n - 1) as nat);
        let own = encode_utf8(bindings[n - 1].name.lexeme@).len();
        if before < own {
            own
        } else {
            before
        }
    }
}

/// So many spaces.
pub open spec fn spaces(n: nat) -> Seq<char> {
    Seq::new(n, |i: int| ' ')
}

/// The line of a binding in a listing: the name, filled up with spaces to
/// the width of the column where it has fewer characters, then the value in
/// quotes.
pub open spec fn listed(binding: Binding, width: nat) -> Seq<char> {
    let name = binding.name.lexeme@;
    let fill = if name.len() < width {
        (width - name.len()) as nat
    } else {
        0
    };
    name + spaces(fill) + " := \""@ + binding.value@ + "\"\n"@
}

/// The lines of the first `n` bindings.
pub open spec fn listing_of(bindings: Seq<Binding>, width: nat, n: nat) -> Seq<char>
    decreases n,
{
    if n == 0 || n > bindings.len() {
        Seq::empty()
    } else {
        listing_of(bindings, width, (n - 1) as nat) + listed(bindings[n - 1], width)
    }
}

/// Whether `i` is the place of the binding that gives `name` its value:
/// the last that binds it.
pub open spec fn is_binding_of(bindings: Seq<Binding>, name: Seq<char>, i: int) -> bool {
    &&& 0 <= i < bindings.len()
    &&& bindings[i].name.lexeme@ == name
    &&& forall|j: int| i < j < bindings.len() ==> (#[trigger] bindings[j]).name.lexeme@ != name
}

/// Whether `name` has a value.
pub open spec fn is_bound(bindings: Seq<Binding>, name: Seq<char>) -> bool {
    exists|i: int| 0 <= i < bindings.len() && (#[trigger] bindings[i]).name.lexeme@ == name
}

fn push_spaces(out: &mut String, n: usize)
    ensures
        final(out)@ == old(out)@ + spaces(n as nat),
{
    let mut i: usize = 0;
    assert(old(out)@ + spaces(0) =~= old(out)@);
    while i < n
        invariant
            i <= n,
            out@ == old(out)@ + spaces(i as nat),
        decreases n - i,
    {
        out.push(' ');
        assert(out@ =~= old(out)@ + spaces((i + 1) as nat));
        i += 1;
    }
}

impl Scope {
    pub fn new() -> (scope: Scope)
        ensures
            scope.bindings@ == Seq::<Binding>::empty(),
    {
        Scope { bindings: Vec::new() }
    }

    /// Gives a variable a value.
    pub fn bind(&mut self, export: bool, name: Name, value: String)
        ensures
            final(self).bindings@ == old(self).bindings@.push(Binding { export, name, value }),
    {
        self.bindings.push(Binding { export, name, value });
    }

    pub fn bindings(&self) -> (r: &Vec<Binding>)
        ensures
            r@ == self.bindings@,
    {
        &self.bindings
    }

    /// The names of the variables.
    pub fn names(&self) -> (r: Vec<&str>)
        ensures
            r@.len() == self.bindings@.len(),
            forall|i: int| 0 <= i < r@.len() ==> (#[trigger] r@[i])@ == self.bindings@[i].name.lexeme@,
    {
        let mut r: Vec<&str> = Vec::new();
        let mut i: usize = 0;
        while i < self.bindings.len()
            invariant
                i <= self.bindings.len(),
                r@.len() == i,
                forall|j: int|
                    0 <= j < i ==> (#[trigger] r@[j])@ == self.bindings@[j].name.lexeme@,
            decreases self.bindings.len() - i,
        {
            r.push(self.bindings[i].name.lexeme());
            i += 1;
        }
        r
    }

    /// The value of a variable: that which it was given last.
    pub fn value(&self, name: &str) -> (r: Option<&str>)
        ensures
            r is Some == is_bound(self.bindings@, name@),
            r matches Some(v) ==> exists|i: int|
                is_binding_of(self.bindings@, name@, i) && v@ == (
                #[trigger] self.bindings@[i]).value@,
    {
        let mut i: usize = self.bindings.len();
        while i > 0
            invariant
                i <= self.bindings.len(),
                forall|j: int|
                    i <= j < self.bindings@.len() ==> (#[trigger] self.bindings@[j]).name.lexeme@
                        != name@,
            decreases i,
        {
            i -= 1;
            if same(self.bindings[i].name.lexeme(), name) {
                assert(is_binding_of(self.bindings@, name@, i as int));
                return Some(self.bindings[i].value.as_str());
            }
        }
        None
    }

    /// The list of the variables with their values, a line for each, the
    /// names in a column.
    pub fn listing(&self) -> (out: String)
        ensures
            out@ == listing_of(
                self.bindings@,
                column_width(self.bindings@, self.bindings@.len()),
                self.bindings@.len(),
            ),
    {
        let count = self.bindings.len();
        let mut width: usize = 0;
        let mut i: usize = 0;
        while i < count
            invariant
                count == self.bindings@.len(),
                i <= count,
                width == column_width(self.bindings@, i as nat),
            decreases count - i,
        {
            let length = self.bindings[i].name.lexeme().as_bytes().len();
            if width < length {
                width = length;
            }
            i += 1;
        }
        let mut out = String::new();
        let mut i: usize = 0;
        while i < count
            invariant
                count == self.bindings@.len(),
                i <= count,
                width == column_width(self.bindings@, count as nat),
                out@ == listing_of(self.bindings@, width as nat, i as nat),
            decreases count - i,
        {
            let binding = &self.bindings[i];
            let ghost before = out@;
            let name = binding.name.lexeme();
            let characters = name.unicode_len();
            out.append(name);
            if characters < width {
                push_spaces(&mut out, width - characters);
            } else {
                assert(out@ + spaces(0) =~= out@);
            }
            out.append(" := \"");
            out.append(binding.value.as_str());
            out.append("\"\n");
            assert(out@ =~= before + listed(*binding, width as nat));
            i += 1;
        }
        out
    }
}

} // verus!
