//! System memory and swap accounting.
//!
//! The kernel's memory summary is a colon-delimited text of kilobyte
//! fields. Parsing extracts the raw totals and derives the used figures:
//! used memory is the total less buffers/cache and free memory, and used
//! swap is total swap less free swap.

use vstd::prelude::*;

use crate::text::colon_parts_of;
use crate::text::kb_stripped;
use crate::text::lines_of;
use crate::text::parse_u64_of;
use crate::text::trim_of;
use crate::text::parse_u64;
use crate::text::split_colon;
use crate::text::split_lines;
use crate::text::str_eq;
use crate::text::strip_suffix;
use crate::text::trim;
use crate::FIELD_LIMIT;
use crate::SysError;

verus! {

/// One snapshot of system memory and swap, in kilobytes. `used` and
/// `swap_used` are derived, the rest is read.
#[derive(Debug, Clone, Copy, PartialEq, Eq, Structural)]
pub struct Memory {
    pub total: i64,
    pub free: i64,
    pub used: i64,
    pub avaliable: i64,
    pub buffer_or_cached: i64,
    pub swap_total: i64,
    pub swap_used: i64,
    pub swap_free: i64,
}

impl Memory {
    /// Validity of a snapshot: every read field is a size within
    /// [`FIELD_LIMIT`], and the derived fields satisfy the accounting
    /// identities `used == total - buffer_or_cached - free` and
    /// `swap_used == swap_total - swap_free`.
    pub open spec fn wf(self) -> bool {
        &&& 0 <= self.total && self.total <= FIELD_LIMIT as i64
        &&& 0 <= self.free && self.free <= FIELD_LIMIT as i64
        &&& 0 <= self.avaliable && self.avaliable <= FIELD_LIMIT as i64
        &&& 0 <= self.buffer_or_cached && self.buffer_or_cached <= FIELD_LIMIT as i64
        &&& 0 <= self.swap_total && self.swap_total <= FIELD_LIMIT as i64
        &&& 0 <= self.swap_free && self.swap_free <= FIELD_LIMIT as i64
        &&& self.used as int == self.total - self.buffer_or_cached - self.free
        &&& self.swap_used as int == self.swap_total - self.swap_free
    }
}

/// The raw fields gathered while reading the summary, before the derived
/// figures exist.
pub ghost struct MemAcc {
    pub total: int,
    pub free: int,
    pub avaliable: int,
    pub buffer_or_cached: int,
    pub swap_total: int,
    pub swap_free: int,
}

/// The accumulator before any line was read: every field zero.
pub open spec fn mem_acc_empty() -> MemAcc {
    MemAcc { total: 0, free: 0, avaliable: 0, buffer_or_cached: 0, swap_total: 0, swap_free: 0 }
}

/// One kilobyte value of the summary: the trimmed text after the colon,
/// with its unit suffix removed, as a number within [`FIELD_LIMIT`].
pub open spec fn mem_val_of(v: Seq<char>) -> Option<u64> {
    match parse_u64_of(kb_stripped(v)) {
        Some(n) => if n <= FIELD_LIMIT {
            Some(n)
        } else {
            None
        },
        None => None,
    }
}

/// Runtime check of [`mem_val_of`].
fn parse_mem_val(v: &str) -> (r: Option<u64>)
    ensures
        r == mem_val_of(v@),
{
    let stripped = strip_suffix(v, " kB");
    match parse_u64(stripped) {
        Some(n) => if n <= FIELD_LIMIT {
            Some(n)
        } else {
            None
        },
        None => None,
    }
}

/// Whether the key names one of the summary fields the snapshot keeps.
pub open spec fn is_mem_key(k: Seq<char>) -> bool {
    ||| k == "MemTotal"@
    ||| k == "MemFree"@
    ||| k == "MemAvailable"@
    ||| k == "Buffers"@
    ||| k == "Cached"@
    ||| k == "SReclaimable"@
    ||| k == "SwapTotal"@
    ||| k == "SwapFree"@
}

/// How one summary line changes the gathered fields. The key before the
/// first colon decides the field; buffers, cache and reclaimable slab
/// accumulate into one figure. A kept key whose value is missing, fails
/// numeric parsing, or drives a field beyond [`FIELD_LIMIT`] is malformed;
/// unknown keys are ignored.
pub open spec fn mem_line_step(acc: MemAcc, line: Seq<char>) -> Result<MemAcc, SysError> {
    let parts = colon_parts_of(line);
    let k = trim_of(parts[0]);
    if !is_mem_key(k) {
        Ok(acc)
    } else if parts.len() < 2 {
        Err(SysError::MalformedData)
    } else {
        match mem_val_of(trim_of(parts[1])) {
            None => Err(SysError::MalformedData),
            Some(n) => {
                let v = n as int;
                if k == "MemTotal"@ {
                    Ok(MemAcc { total: v, ..acc })
                } else if k == "MemFree"@ {
                    Ok(MemAcc { free: v, ..acc })
                } else if k == "MemAvailable"@ {
                    Ok(MemAcc { avaliable: v, ..acc })
                } else if k == "SwapTotal"@ {
                    Ok(MemAcc { swap_total: v, ..acc })
                } else if k == "SwapFree"@ {
                    Ok(MemAcc { swap_free: v, ..acc })
                } else {
                    let b = acc.buffer_or_cached + v;
                    if b <= FIELD_LIMIT as int {
                        Ok(MemAcc { buffer_or_cached: b, ..acc })
                    } else {
                        Err(SysError::MalformedData)
                    }
                }
            },
        }
    }
}

/// The raw fields encoded by a sequence of summary lines.
pub open spec fn mem_of_lines(ls: Seq<Seq<char>>) -> Result<MemAcc, SysError>
    decreases ls.len(),
{
    if ls.len() == 0 {
        Ok(mem_acc_empty())
    } else {
        match mem_of_lines(ls.drop_last()) {
            Err(e) => Err(e),
            Ok(acc) => mem_line_step(acc, ls.last()),
        }
    }
}

/// Whether every field the accumulator gathered is a valid size.
pub open spec fn mem_acc_wf(acc: MemAcc) -> bool {
    &&& 0 <= acc.total <= FIELD_LIMIT as int
    &&& 0 <= acc.free <= FIELD_LIMIT as int
    &&& 0 <= acc.avaliable <= FIELD_LIMIT as int
    &&& 0 <= acc.buffer_or_cached <= FIELD_LIMIT as int
    &&& 0 <= acc.swap_total <= FIELD_LIMIT as int
    &&& 0 <= acc.swap_free <= FIELD_LIMIT as int
}

/// What parsing a whole memory summary yields: the gathered raw fields.
pub open spec fn spec_parse_memory(content: Seq<char>) -> Result<MemAcc, SysError> {
    mem_of_lines(lines_of(content))
}

/// The snapshot a gathered accumulator describes, derived fields included.
pub open spec fn mem_matches(m: Memory, acc: MemAcc) -> bool {
    &&& m.total as int == acc.total
    &&& m.free as int == acc.free
    &&& m.avaliable as int == acc.avaliable
    &&& m.buffer_or_cached as int == acc.buffer_or_cached
    &&& m.swap_total as int == acc.swap_total
    &&& m.swap_free as int == acc.swap_free
    &&& m.used as int == acc.total - acc.buffer_or_cached - acc.free
    &&& m.swap_used as int == acc.swap_total - acc.swap_free
}

/// A malformed line poisons the whole parse.
proof fn lemma_mem_err_prefix(ls: Seq<Seq<char>>, i: int)
    requires
        0 <= i <= ls.len(),
        mem_of_lines(ls.take(i)) is Err,
    ensures
        mem_of_lines(ls) == mem_of_lines(ls.take(i)),
    decreases ls.len() - i,
{
    if i == ls.len() {
        assert(ls.take(i) =~= ls);
    } else {
        assert(ls.take(i + 1).drop_last() =~= ls.take(i));
        lemma_mem_err_prefix(ls, i + 1);
    }
}

/// Parses the memory summary text into a snapshot: the kept kilobyte
/// fields, with used memory derived as total less buffers/cache and free,
/// and used swap as total swap less free swap. A field that never occurs
/// stays zero.
///
/// Fails with `MalformedData` when a kept key has no value, a value that is
/// not a number, or one beyond [`FIELD_LIMIT`].
pub fn get_memory(content: &str) -> (r: Result<Memory, SysError>)
    ensures
        (match (r, spec_parse_memory(content@)) {
            (Ok(m), Ok(acc)) => mem_matches(m, acc) && m.wf(),
            (Err(e), Err(se)) => e == se,
            _ => false,
        }),
{
    let lines = split_lines(content);
    let ghost ls = lines.deep_view();
    let mut total: i64 = 0;
    let mut free: i64 = 0;
    let mut avaliable: i64 = 0;
    let mut boc: i64 = 0;
    let mut swap_total: i64 = 0;
    let mut swap_free: i64 = 0;
    let mut i: usize = 0;
    proof {
        assert(ls.take(0) =~= Seq::<Seq<char>>::empty());
    }
    while i < lines.len()
        invariant
            i <= lines@.len(),
            ls == lines.deep_view(),
            ls == lines_of(content@),
            ls.len() == lines@.len(),
            mem_of_lines(ls.take(i as int)) == Ok::<MemAcc, SysError>(
                MemAcc {
                    total: total as int,
                    free: free as int,
                    avaliable: avaliable as int,
                    buffer_or_cached: boc as int,
                    swap_total: swap_total as int,
                    swap_free: swap_free as int,
                },
            ),
            mem_acc_wf(
                MemAcc {
                    total: total as int,
                    free: free as int,
                    avaliable: avaliable as int,
                    buffer_or_cached: boc as int,
                    swap_total: swap_total as int,
                    swap_free: swap_free as int,
                },
            ),
        decreases lines@.len() - i,
    {
        let line = lines[i];
        proof {
            assert(line@ == ls[i as int]);
            assert(ls.take(i + 1).drop_last() =~= ls.take(i as int));
            assert(ls.take(i + 1).last() == ls[i as int]);
        }
        let parts = split_colon(line);
        proof {
            crate::text::lemma_split_if_len(line@, |c: char| c == ':');
            assert(parts[0]@ == parts.deep_view()[0]);
        }
        let k = trim(parts[0]);
        let is_boc_key = str_eq(k, "Buffers") || str_eq(k, "Cached") || str_eq(k, "SReclaimable");
        let is_key = is_boc_key || str_eq(k, "MemTotal") || str_eq(k, "MemFree") || str_eq(
            k,
            "MemAvailable",
        ) || str_eq(k, "SwapTotal") || str_eq(k, "SwapFree");
        if is_key {
            if parts.len() < 2 {
                proof {
                    lemma_mem_err_prefix(ls, i + 1);
                }
                return Err(SysError::MalformedData);
            }
            proof {
                assert(parts[1]@ == parts.deep_view()[1]);
            }
            let v = trim(parts[1]);
            match parse_mem_val(v) {
                None => {
                    proof {
                        lemma_mem_err_prefix(ls, i + 1);
                    }
                    return Err(SysError::MalformedData);
                },
                Some(n) => {
                    let nv = n as i64;
                    if str_eq(k, "MemTotal") {
                        total = nv;
                    } else if str_eq(k, "MemFree") {
                        free = nv;
                    } else if str_eq(k, "MemAvailable") {
                        avaliable = nv;
                    } else if str_eq(k, "SwapTotal") {
                        swap_total = nv;
                    } else if str_eq(k, "SwapFree") {
                        swap_free = nv;
                    } else {
                        if boc <= FIELD_LIMIT as i64 - nv {
                            boc = boc + nv;
                        } else {
                            proof {
                                lemma_mem_err_prefix(ls, i + 1);
                            }
                            return Err(SysError::MalformedData);
                        }
                    }
                },
            }
        }
        i = i + 1;
    }
    proof {
        assert(ls.take(lines@.len() as int) =~= ls);
    }
    Ok(
        Memory {
            total,
            free,
            used: total - boc - free,
            avaliable,
            buffer_or_cached: boc,
            swap_total,
            swap_used: swap_total - swap_free,
            swap_free,
        },
    )
}

} // verus!
