//! Path layout under the data directory.

use vstd::prelude::*;
use crate::text::str_to_chars;

verus! {

/// Where raw CSV exports live under the data directory.
pub fn raw_data_dir(data_dir: &str) -> (r: String)
    ensures
        r@ == data_dir@ + "/raw"@,
{
    let mut out = str_to_chars(data_dir);
    let mut tail = str_to_chars("/raw");
    out.append(&mut tail);
    crate::text::chars_to_string(&out)
}

} // verus!
