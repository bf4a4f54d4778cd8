/*!
Text representation styles, and the small helpers shared by them.
*/

use vstd::prelude::*;
use vstd::string::StringExecFns;

verus! {

/// Which text representation of a term or node is wanted.
#[derive(Copy, Clone, PartialEq, Eq, Debug, Structural)]
pub enum FormatStyle {
    /// The default formatting.
    Default,
    /// A simplified formatting.
    Simple,
    /// Formats the value as a valid input expression where possible.
    Input,
    /// Formatting with extra debugging information.
    Debug,
}

/// A type that can render itself according to a `FormatStyle`.
pub trait Formattable {
    /// A text representation of `self` in the given style.
    fn repr(&self, style: FormatStyle) -> String;
}

/// One line of a named list: `prefix`, two spaces, the item, a line break.
pub open spec fn spec_list_line(prefix: Seq<char>, item: Seq<char>) -> Seq<char> {
    prefix + seq![' ', ' '] + item + seq!['\n']
}

/// A named list rendered line by line.
pub open spec fn spec_named_list_body(prefix: Seq<char>, items: Seq<Seq<char>>) -> Seq<char>
    decreases items.len(),
{
    if items.len() == 0 {
        Seq::empty()
    } else {
        spec_named_list_body(prefix, items.drop_last()) + spec_list_line(prefix, items.last())
    }
}

/// The full rendering: `prefix name: [`, one line per item, `prefix ]`.
pub open spec fn spec_named_list(prefix: Seq<char>, name: Seq<char>, items: Seq<Seq<char>>) -> Seq<
    char,
> {
    prefix + name + ": ["@ + seq!['\n'] + spec_named_list_body(prefix, items) + prefix + "]"@
        + seq!['\n']
}

/// Renders a named list of already-formatted items:
/// ```text
/// name: [
///   item
/// ]
/// ```
/// with `prefix` put before every line.
pub fn format_named_list(prefix: &str, name: &str, list: &Vec<String>) -> (r: String)
    ensures
        r@ == spec_named_list(prefix@, name@, list@.map_values(|s: String| s@)),
{
    proof {
        reveal_strlit(": [");
        reveal_strlit("]");
        reveal_strlit("\n");
        reveal_strlit("  ");
    }
    let mut r = String::from_str(prefix);
    r.append(name);
    r.append(": [");
    r.append("\n");
    let ghost items = list@.map_values(|s: String| s@);
    let mut i: usize = 0;
    proof {
        assert(r@ =~= prefix@ + name@ + ": ["@ + seq!['\n'] + spec_named_list_body(
            prefix@,
            items.take(0),
        ));
    }
    while i < list.len()
        invariant
            i <= list@.len(),
            items == list@.map_values(|s: String| s@),
            r@ == prefix@ + name@ + ": ["@ + seq!['\n'] + spec_named_list_body(
                prefix@,
                items.take(i as int),
            ),
        decreases list@.len() - i,
    {
        r.append(prefix);
        r.append("  ");
        r.append(list[i].as_str());
        r.append("\n");
        proof {
            reveal_strlit("\n");
            reveal_strlit("  ");
            assert(items.take(i + 1 as int).drop_last() =~= items.take(i as int));
            assert(items.take(i + 1 as int).last() == items[i as int]);
            assert("  "@ =~= seq![' ', ' ']);
            assert("\n"@ =~= seq!['\n']);
            assert(r@ =~= prefix@ + name@ + ": ["@ + seq!['\n'] + spec_named_list_body(
                prefix@,
                items.take(i + 1 as int),
            ));
        }
        i = i + 1;
    }
    r.append(prefix);
    r.append("]");
    r.append("\n");
    proof {
        assert(items.take(list@.len() as int) =~= items);
        assert(r@ =~= spec_named_list(prefix@, name@, items));
    }
    r
}

} // verus!
