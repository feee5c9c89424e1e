//! Default styling that new shapes start with.

use vstd::prelude::*;

verus! {

/// The characters `#000000`.
pub open spec fn black_hex() -> Seq<char> {
    seq!['#', '0', '0', '0', '0', '0', '0']
}

/// The stroke colour a new shape is drawn with: black.
pub fn default_stroke_color() -> (r: String)
    ensures
        r@ == black_hex(),
{
    proof {
        reveal_strlit("#000000");
        assert("#000000"@ =~= black_hex());
    }
    String::from_str("#000000")
}

/// The fill a new shape starts with: none.
pub fn default_fill_color() -> (r: Option<String>)
    ensures
        r is None,
{
    None
}

} // verus!
