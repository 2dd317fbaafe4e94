//! File-name conventions for sstable files: the level directories and
//! the paths under which sealed generations are persisted.

use vstd::prelude::*;
use vstd::string::*;

use crate::utils::text::{dec_str, rfind_from, rfind_char, u64_to_string};

verus! {

/// Root directory under which sstable level directories live.
pub const SSTABLE_PATH: &'static str = "/Users/firoly/Documents/code/rust/mobiusdb/mobiusdb-lsm/tmp/";

/// File suffix of a persisted sstable.
pub const SSTABLE_FILE_SUFFIX: &'static str = ".sst";

/// The level of an sstable file in the store's hierarchy.
#[derive(Debug, Clone, Copy, PartialEq, Eq, Structural)]
pub enum Level {
    L0,
    L1,
    L2,
    L3,
    L4,
    L5,
}

impl Level {
    /// The directory name of this level.
    pub open spec fn spec_name(self) -> Seq<char> {
        match self {
            Level::L0 => seq!['l', '0'],
            Level::L1 => seq!['l', '1'],
            Level::L2 => seq!['l', '2'],
            Level::L3 => seq!['l', '3'],
            Level::L4 => seq!['l', '4'],
            Level::L5 => seq!['l', '5'],
        }
    }

    /// The directory name of this level.
    pub fn name(&self) -> (r: &'static str)
        ensures
            r@ == self.spec_name(),
    {
        proof {
            reveal_strlit("l0");
            reveal_strlit("l1");
            reveal_strlit("l2");
            reveal_strlit("l3");
            reveal_strlit("l4");
            reveal_strlit("l5");
        }
        let r: &'static str = match self {
            Level::L0 => "l0",
            Level::L1 => "l1",
            Level::L2 => "l2",
            Level::L3 => "l3",
            Level::L4 => "l4",
            Level::L5 => "l5",
        };
        proof {
            assert(r@ =~= self.spec_name());
        }
        r
    }
}

/// The file name at the end of an sstable path: what follows the last
/// path separator, or the whole path without one.
pub fn get_sstable_file_name(table_path: &str) -> (r: Option<String>)
    ensures
        r is Some,
        r.unwrap()@ == table_path@.skip(rfind_from(table_path@, '/', table_path@.len() - 1) + 1),
{
    proof {
        lemma_rfind_bounds(table_path@, '/', table_path@.len() - 1);
    }
    let n = table_path.unicode_len();
    let start = match rfind_char(table_path, '/') {
        Some(i) => i + 1,
        None => 0,
    };
    let r = String::from_str(table_path.substring_char(start, n));
    proof {
        assert(r@ =~= table_path@.skip(rfind_from(table_path@, '/', table_path@.len() - 1) + 1));
    }
    Some(r)
}

/// The last occurrence of a character lies inside the string.
pub proof fn lemma_rfind_bounds(s: Seq<char>, c: char, i: int)
    requires
        -1 <= i,
    ensures
        -1 <= rfind_from(s, c, i) <= i,
        rfind_from(s, c, i) < s.len(),
    decreases i + 1,
{
    if !(i < 0 || i >= s.len()) && s[i] != c {
        lemma_rfind_bounds(s, c, i - 1);
    }
}

/// The path of an sstable file: root, level directory, file name,
/// suffix.
pub fn get_sstable_path(table_name: &str, level: Level) -> (r: String)
    ensures
        r@ == SSTABLE_PATH@ + level.spec_name() + seq!['/'] + table_name@
            + SSTABLE_FILE_SUFFIX@,
{
    proof {
        reveal_strlit("/");
    }
    let r = String::from_str(SSTABLE_PATH).concat(level.name()).concat("/").concat(
        table_name,
    ).concat(SSTABLE_FILE_SUFFIX);
    proof {
        assert(r@ =~= SSTABLE_PATH@ + level.spec_name() + seq!['/'] + table_name@
            + SSTABLE_FILE_SUFFIX@);
    }
    r
}

/// The path of a fresh sstable file for a table prefix: the file name
/// is the prefix stamped with the clock's current reading.
pub fn create_sstable_path(table_prefix: &str, level: Level) -> (r: String)
    ensures
        exists|t: u64|
            r@ == SSTABLE_PATH@ + level.spec_name() + seq!['/'] + table_prefix@ + seq!['-']
                + dec_str(t as int) + SSTABLE_FILE_SUFFIX@,
{
    proof {
        reveal_strlit("-");
    }
    let time = crate::utils::time_utils::now() as u64;
    let digits = u64_to_string(time);
    let new_table_name = String::from_str(table_prefix).concat("-").concat(digits.as_str());
    let r = get_sstable_path(new_table_name.as_str(), level);
    proof {
        assert(r@ =~= SSTABLE_PATH@ + level.spec_name() + seq!['/'] + table_prefix@ + seq!['-']
            + dec_str(time as int) + SSTABLE_FILE_SUFFIX@);
    }
    r
}

} // verus!
