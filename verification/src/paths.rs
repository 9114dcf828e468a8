//! Paths within the storage layout, and the naming of temporary capture
//! files. Every artifact of an item lives at a fixed, predictable filename
//! inside the item's own directory, so later paths are computable without a
//! lookup table.

use vstd::prelude::*;
use vstd::string::StrSliceExecFns;
use vstd::string::StringExecFns;

verus! {

/// Path of the catalog document under the storage root.
pub fn get_index_path(history_dir: &str) -> (r: String)
    ensures
        r@ == history_dir@ + "/index.json"@,
{
    String::from_str(history_dir).concat("/index.json")
}

/// Path of one item's directory under the storage root.
pub fn item_dir_path(history_dir: &str, id: &str) -> (r: String)
    ensures
        r@ == history_dir@ + "/"@ + id@,
{
    String::from_str(history_dir).concat("/").concat(id)
}

/// A temporary capture file is named by a fixed prefix, an identifier, and
/// the image suffix.
pub fn temp_capture_filename(id: &str) -> (r: String)
    ensures
        r@ == "sa_"@ + id@ + ".png"@,
{
    String::from_str("sa_").concat(id).concat(".png")
}

/// Whether a file name looks like a temporary capture file: it starts with
/// the capture prefix and ends with the image suffix.
pub open spec fn spec_temp_capture_name(s: Seq<char>) -> bool {
    &&& s.len() >= 3
    &&& s.subrange(0, 3) == "sa_"@
    &&& s.len() >= 4
    &&& s.subrange(s.len() - 4, s.len() as int) == ".png"@
}

/// Recognise a temporary capture file by its name, as the shutdown cleanup
/// does.
pub fn is_temp_capture_name(name: &str) -> (r: bool)
    ensures
        r == spec_temp_capture_name(name@),
{
    proof {
        reveal_strlit("sa_");
        reveal_strlit(".png");
    }
    let n = name.unicode_len();
    if n < 4 {
        return false;
    }
    let prefix_ok = name.get_char(0) == 's' && name.get_char(1) == 'a' && name.get_char(2) == '_';
    let suffix_ok = name.get_char(n - 4) == '.' && name.get_char(n - 3) == 'p' && name.get_char(
        n - 2,
    ) == 'n' && name.get_char(n - 1) == 'g';
    proof {
        if prefix_ok {
            assert(name@.subrange(0, 3) =~= "sa_"@);
        } else {
            if name@.subrange(0, 3) == "sa_"@ {
                assert(name@[0] == "sa_"@[0]);
                assert(name@[1] == "sa_"@[1]);
                assert(name@[2] == "sa_"@[2]);
            }
        }
        let e = name@.len() as int;
        if suffix_ok {
            assert(name@.subrange(e - 4, e) =~= ".png"@);
        } else {
            if name@.subrange(e - 4, e) == ".png"@ {
                assert(name@[e - 4] == ".png"@[0]);
                assert(name@[e - 3] == ".png"@[1]);
                assert(name@[e - 2] == ".png"@[2]);
                assert(name@[e - 1] == ".png"@[3]);
            }
        }
    }
    prefix_ok && suffix_ok
}

} // verus!
