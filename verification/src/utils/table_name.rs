//! Structured table names: a logical prefix, an optional generation
//! timestamp, and an optional file suffix. All generations of one
//! logical table share the prefix; each generation carries its own
//! timestamp.

use vstd::prelude::*;
use vstd::string::*;

use crate::utils::text::{
    all_digits, dec_str, dec_val, find_from, find_char_from, parse_u64, u64_to_string,
};

verus! {

/// The catalog key: `prefix`, an optional generation time, and an
/// optional file suffix.
#[derive(Debug, Clone, PartialEq)]
pub struct TableName {
    pub prefix: String,
    pub time: Option<u64>,
    pub suffix: Option<String>,
}

impl TableName {
    /// The in-memory table name this identifier renders to:
    /// `prefix-time`, or the bare prefix without a generation time.
    pub open spec fn mem_name_spec(self) -> Seq<char> {
        match self.time {
            Some(t) => self.prefix@ + seq!['-'] + dec_str(t as int),
            None => self.prefix@,
        }
    }

    /// The sstable file name this identifier renders to: the
    /// in-memory name followed by the suffix, when one is set.
    pub open spec fn ss_name_spec(self) -> Seq<char> {
        match self.suffix {
            Some(sfx) => self.mem_name_spec() + sfx@,
            None => self.mem_name_spec(),
        }
    }

    /// A bare name: just the prefix.
    pub fn new(prefix: &str) -> (r: Self)
        ensures
            r.prefix@ == prefix@,
            r.time is None,
            r.suffix is None,
    {
        Self { prefix: String::from_str(prefix), time: None, suffix: None }
    }

    /// Recover a structured name from a rendered in-memory table name
    /// of the form `prefix-time`. The timestamp is what stands between
    /// the first dash and the next dash or the end.
    pub fn new_with_mem_name(mem_table: &str) -> (r: Self)
        requires
            find_from(mem_table@, '-', 0) < mem_table@.len(),
            find_from(mem_table@, '-', 0) + 1 < find_from(
                mem_table@,
                '-',
                find_from(mem_table@, '-', 0) + 1,
            ),
            all_digits(
                mem_table@.subrange(
                    find_from(mem_table@, '-', 0) + 1,
                    find_from(mem_table@, '-', find_from(mem_table@, '-', 0) + 1),
                ),
            ),
            dec_val(
                mem_table@.subrange(
                    find_from(mem_table@, '-', 0) + 1,
                    find_from(mem_table@, '-', find_from(mem_table@, '-', 0) + 1),
                ),
            ) <= u64::MAX,
        ensures
            r.prefix@ == mem_table@.take(find_from(mem_table@, '-', 0)),
            r.time == Some(
                dec_val(
                    mem_table@.subrange(
                        find_from(mem_table@, '-', 0) + 1,
                        find_from(mem_table@, '-', find_from(mem_table@, '-', 0) + 1),
                    ),
                ) as u64,
            ),
            r.suffix is None,
    {
        proof {
            crate::utils::text::lemma_find_from_props(mem_table@, '-', 0);
        }
        let n = mem_table.unicode_len();
        let i = find_char_from(mem_table, '-', 0);
        proof {
            crate::utils::text::lemma_find_from_props(mem_table@, '-', i + 1);
        }
        let j = find_char_from(mem_table, '-', i + 1);
        let prefix = String::from_str(mem_table.substring_char(0, i));
        let tpart = mem_table.substring_char(i + 1, j);
        let time = match parse_u64(tpart) {
            Some(t) => t,
            None => {
                proof {
                    assert(false);
                }
                0
            },
        };
        Self { prefix, time: Some(time), suffix: None }
    }

    /// A fresh in-memory generation name: the prefix stamped with the
    /// clock's current reading.
    pub fn new_mem_name(prefix: &str) -> (r: Self)
        ensures
            r.prefix@ == prefix@,
            r.time is Some,
            r.suffix is None,
    {
        let time = crate::utils::time_utils::now() as u64;
        Self::new_with_time(prefix, time)
    }

    /// A fresh sstable name: the prefix stamped with the clock and the
    /// sstable file suffix.
    pub fn new_ss_name(prefix: &str) -> (r: Self)
        ensures
            r.prefix@ == prefix@,
            r.time is Some,
            r.suffix is Some,
            r.suffix.unwrap()@ == crate::utils::file_utils::SSTABLE_FILE_SUFFIX@,
    {
        let time = crate::utils::time_utils::now() as u64;
        Self::new_with_opts(prefix, time, crate::utils::file_utils::SSTABLE_FILE_SUFFIX)
    }

    /// A name with an explicit generation time.
    pub fn new_with_time(prefix: &str, create_time: u64) -> (r: Self)
        ensures
            r.prefix@ == prefix@,
            r.time == Some(create_time),
            r.suffix is None,
    {
        Self { prefix: String::from_str(prefix), time: Some(create_time), suffix: None }
    }

    /// A name with an explicit generation time and file suffix.
    pub fn new_with_opts(prefix: &str, create_time: u64, suffix: &str) -> (r: Self)
        ensures
            r.prefix@ == prefix@,
            r.time == Some(create_time),
            r.suffix is Some,
            r.suffix.unwrap()@ == suffix@,
    {
        Self {
            prefix: String::from_str(prefix),
            time: Some(create_time),
            suffix: Some(String::from_str(suffix)),
        }
    }

    /// Render the in-memory table name: `prefix-time`, or the bare
    /// prefix when no generation time is set.
    pub fn get_memtable_name(&self) -> (r: String)
        ensures
            r@ == self.mem_name_spec(),
    {
        proof {
            reveal_strlit("-");
        }
        match self.time {
            Some(t) => {
                let digits = u64_to_string(t);
                let r = self.prefix.clone().concat("-").concat(digits.as_str());
                proof {
                    assert(r@ =~= self.mem_name_spec());
                }
                r
            },
            None => self.prefix.clone(),
        }
    }

    /// Render the sstable file name: the in-memory name followed by
    /// the suffix, when one is set.
    pub fn get_sstable_name(&self) -> (r: String)
        ensures
            r@ == self.ss_name_spec(),
    {
        let base = self.get_memtable_name();
        match &self.suffix {
            Some(sfx) => {
                let r = base.concat(sfx.as_str());
                proof {
                    assert(r@ =~= self.ss_name_spec());
                }
                r
            },
            None => base,
        }
    }

    /// The logical prefix shared by all generations of this table.
    pub fn get_prefix_name(&self) -> (r: String)
        ensures
            r@ == self.prefix@,
    {
        self.prefix.clone()
    }

    /// The prefix part of a rendered in-memory table name: what stands
    /// before the first dash, or the whole name without one.
    pub fn get_prefix_name_with_name(mem_table: &str) -> (r: String)
        ensures
            r@ == mem_table@.take(find_from(mem_table@, '-', 0)),
    {
        proof {
            crate::utils::text::lemma_find_from_props(mem_table@, '-', 0);
        }
        let i = find_char_from(mem_table, '-', 0);
        String::from_str(mem_table.substring_char(0, i))
    }

    /// An exact copy of this name.
    pub fn duplicate(&self) -> (r: Self)
        ensures
            r == *self,
    {
        let suffix = match &self.suffix {
            Some(s) => Some(s.clone()),
            None => None,
        };
        let r = TableName { prefix: self.prefix.clone(), time: self.time, suffix };
        proof {
            assert(r == *self);
        }
        r
    }

    /// Whether two names denote the same identifier: same prefix,
    /// same generation time, same suffix.
    pub open spec fn eq_spec(self, other: TableName) -> bool {
        &&& self.prefix@ == other.prefix@
        &&& self.time == other.time
        &&& match (self.suffix, other.suffix) {
            (Some(a), Some(b)) => a@ == b@,
            (None, None) => true,
            _ => false,
        }
    }

    /// Whether two names denote the same identifier, field by field.
    pub fn eq_name(&self, other: &TableName) -> (r: bool)
        ensures
            r == self.eq_spec(*other),
    {
        let prefix_eq = self.prefix == other.prefix;
        let time_eq = match (self.time, other.time) {
            (Some(a), Some(b)) => a == b,
            (None, None) => true,
            _ => false,
        };
        let suffix_eq = match (&self.suffix, &other.suffix) {
            (Some(a), Some(b)) => *a == *b,
            (None, None) => true,
            _ => false,
        };
        prefix_eq && time_eq && suffix_eq
    }
}

} // verus!
