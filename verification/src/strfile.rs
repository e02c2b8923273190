use vstd::prelude::*;
use vstd::seq_lib::to_multiset_build;
use vstd::seq_lib::to_multiset_insert;
use crate::error::FortuneError;
use crate::extract::scan_from;
use crate::extract::extract_scan;
use crate::extract::extract_exact;
use crate::pattern::Matcher;
use crate::pattern::pattern_matches;
use crate::rng::random_below;
use crate::rot::rot_seq;
use crate::rot::rot13;

verus! {

/// Highest index-format version this decoder accepts.
pub const STRFILE_VERSION: u32 = 2;

/// Flag bit: the offset table was written in randomized order.
pub const STRFILE_FLAG_RANDOM: u32 = 0x1;

/// Flag bit: the offset table was written in sorted order.
pub const STRFILE_FLAG_ORDERED: u32 = 0x2;

/// Flag bit: the record text is stored rotated and must be decoded before display.
pub const STRFILE_FLAG_ROTATED: u32 = 0x4;

/// Size in bytes of the fixed index header that precedes the offset table.
pub const HEADER_LEN: usize = 24;

/// ASCII '%', the separator used when the header leaves its byte unset.
pub const DEFAULT_SEPARATOR: u8 = 37;

/// Width in bytes of the separator that trails each record in the text file:
/// the separator character and its newline.
pub const SEPARATOR_WIDTH: u32 = 2;

/// A big-endian 32-bit integer assembled from four bytes.
pub open spec fn be_u32(b0: u8, b1: u8, b2: u8, b3: u8) -> u32 {
    (b0 * 0x100_0000 + b1 * 0x1_0000 + b2 * 0x100 + b3) as u32
}

/// The big-endian 32-bit field that starts at byte `pos` of `bytes`.
pub open spec fn be_field(bytes: Seq<u8>, pos: int) -> u32 {
    be_u32(bytes[pos], bytes[pos + 1], bytes[pos + 2], bytes[pos + 3])
}

/// Reads the big-endian 32-bit field that starts at byte `pos`.
pub fn read_be_u32(bytes: &[u8], pos: usize) -> (r: u32)
    requires
        pos + 4 <= bytes@.len(),
    ensures
        r == be_field(bytes@, pos as int),
{
    let b0 = bytes[pos] as u32;
    let b1 = bytes[pos + 1] as u32;
    let b2 = bytes[pos + 2] as u32;
    let b3 = bytes[pos + 3] as u32;
    b0 * 0x100_0000 + b1 * 0x1_0000 + b2 * 0x100 + b3
}

/// A sequence is sorted in ascending numeric order.
pub open spec fn sorted(s: Seq<u32>) -> bool {
    forall|i: int, j: int| 0 <= i <= j < s.len() ==> s[i] <= s[j]
}

/// The decoded header and offset table of one binary index file.
pub struct Datfile {
    /// Format version of the index file.
    pub version: u32,
    /// Number of records in the companion text file.
    pub numstr: u32,
    /// Length in bytes of the longest record (informational).
    pub longlen: u32,
    /// Length in bytes of the shortest record (informational).
    pub shortlen: u32,
    /// Bit field: random, ordered, rotated.
    pub flags: u32,
    /// Alignment padding; byte 0 holds the record separator character.
    pub stuff: [u8; 4],
    /// Byte offsets into the text file; entry `i` starts record `i`,
    /// entry `i + 1` ends it.
    pub seekpts: Vec<u32>,
}

/// The version field of an encoded index.
pub open spec fn version_of(bytes: Seq<u8>) -> u32 {
    be_field(bytes, 0)
}

/// The record-count field of an encoded index.
pub open spec fn numstr_of(bytes: Seq<u8>) -> u32 {
    be_field(bytes, 4)
}

/// The flags field of an encoded index.
pub open spec fn flags_of(bytes: Seq<u8>) -> u32 {
    be_field(bytes, 16)
}

/// An encoded index is acceptable: it holds the fixed header, a version this
/// decoder supports, and a full offset table.
pub open spec fn index_ok(bytes: Seq<u8>) -> bool {
    &&& bytes.len() >= HEADER_LEN
    &&& version_of(bytes) <= STRFILE_VERSION
    &&& bytes.len() - HEADER_LEN >= 4 * (numstr_of(bytes) + 1)
}

/// The offset table exactly as it stands in the encoded index.
pub open spec fn raw_offsets(bytes: Seq<u8>) -> Seq<u32> {
    Seq::new((numstr_of(bytes) + 1) as nat, |i: int| be_field(bytes, HEADER_LEN + 4 * i))
}

/// `d` is the decoding of the index file `bytes`: every header field is the
/// matching big-endian field, and the offset table holds the encoded
/// offsets, sorted ascending when the header marks the pointers as
/// randomized or ordered and exactly as encoded otherwise.
pub open spec fn decoded_from(d: Datfile, bytes: Seq<u8>) -> bool {
    &&& d.version == version_of(bytes)
    &&& d.numstr == numstr_of(bytes)
    &&& d.longlen == be_field(bytes, 8)
    &&& d.shortlen == be_field(bytes, 12)
    &&& d.flags == flags_of(bytes)
    &&& d.stuff@ == bytes.subrange(20, 24)
    &&& d.seekpts@.len() == d.numstr + 1
    &&& d.seekpts@.to_multiset() == raw_offsets(bytes).to_multiset()
    &&& if d.flags & (STRFILE_FLAG_RANDOM | STRFILE_FLAG_ORDERED) != 0 {
        sorted(d.seekpts@)
    } else {
        d.seekpts@ == raw_offsets(bytes)
    }
}

/// Every decoded index holds exactly one offset per record plus one.
pub proof fn lemma_decode_offset_count(d: Datfile, bytes: Seq<u8>)
    requires
        decoded_from(d, bytes),
    ensures
        d.seekpts@.len() == d.numstr + 1,
{
}

impl Datfile {
    /// The decoded index is internally consistent: the offset table has one
    /// entry per record plus one, and is sorted whenever the header promised
    /// randomized or ordered pointers.
    pub open spec fn wf(self) -> bool {
        &&& self.seekpts@.len() == self.numstr + 1
        &&& self.version <= STRFILE_VERSION
        &&& (self.flags & (STRFILE_FLAG_RANDOM | STRFILE_FLAG_ORDERED) != 0) ==> sorted(
            self.seekpts@,
        )
    }

    /// Decodes a binary index file.
    ///
    /// Fails exactly when the bytes are shorter than the fixed header, the
    /// version exceeds the supported maximum, or the declared record count
    /// implies an offset table longer than the remaining bytes.  When the
    /// header marks the pointers as randomized or ordered, the offset table
    /// is sorted ascending after load; otherwise it is kept as it stands.
    pub fn load(bytes: &[u8]) -> (r: Result<Datfile, FortuneError>)
        ensures
            match r {
                Ok(d) => {
                    &&& index_ok(bytes@)
                    &&& d.wf()
                    &&& decoded_from(d, bytes@)
                },
                Err(e) => e == FortuneError::Format && !index_ok(bytes@),
            },
    {
        if bytes.len() < HEADER_LEN {
            return Err(FortuneError::Format);
        }
        let version = read_be_u32(bytes, 0);
        if version > STRFILE_VERSION {
            return Err(FortuneError::Format);
        }
        let numstr = read_be_u32(bytes, 4);
        let longlen = read_be_u32(bytes, 8);
        let shortlen = read_be_u32(bytes, 12);
        let flags = read_be_u32(bytes, 16);
        let stuff: [u8; 4] = [bytes[20], bytes[21], bytes[22], bytes[23]];

        let table = (bytes.len() - HEADER_LEN) as u64;
        let need = (numstr as u64 + 1) * 4;
        if table < need {
            return Err(FortuneError::Format);
        }
        assert(4 * (numstr as int + 1) <= bytes@.len() - HEADER_LEN);

        let count: usize = numstr as usize + 1;
        assert(HEADER_LEN + 4 * count <= bytes@.len());
        let mut seekpts: Vec<u32> = Vec::with_capacity(count);
        for i in 0..count
            invariant
                count == numstr_of(bytes@) + 1,
                HEADER_LEN + 4 * count <= bytes@.len(),
                bytes@.len() <= usize::MAX,
                seekpts@ =~= raw_offsets(bytes@).take(i as int),
        {
            seekpts.push(read_be_u32(bytes, HEADER_LEN + 4 * i));
            assert(seekpts@ =~= raw_offsets(bytes@).take(i + 1));
        }
        assert(seekpts@ =~= raw_offsets(bytes@));

        if flags & (STRFILE_FLAG_RANDOM | STRFILE_FLAG_ORDERED) != 0 {
            sort_u32(&mut seekpts);
        }

        proof {
            assert(bytes@.subrange(20, 24) =~= seq![bytes@[20], bytes@[21], bytes@[22], bytes@[23]]);
        }
        Ok(Datfile { version, numstr, longlen, shortlen, flags, stuff, seekpts })
    }

    /// The byte offset at which record `which` starts.
    pub fn start_of(&self, which: usize) -> (r: u32)
        requires
            self.wf(),
            which <= self.numstr,
        ensures
            r == self.seekpts@[which as int],
    {
        self.seekpts[which]
    }

    /// The byte offset at which record `which` ends (exclusive).
    pub fn end_of(&self, which: usize) -> (r: u32)
        requires
            self.wf(),
            which < self.numstr,
        ensures
            r == self.seekpts@[which as int + 1],
    {
        self.seekpts[which + 1]
    }

    /// Whether the record text is stored rotated.
    pub fn is_rotated(&self) -> (r: bool)
        ensures
            r == (self.flags & STRFILE_FLAG_ROTATED != 0),
    {
        self.flags & STRFILE_FLAG_ROTATED != 0
    }

    /// The length in bytes of record `i`: the offset delta minus the trailing
    /// separator, and zero where the delta is shorter than the separator.
    pub open spec fn spec_record_len(self, i: int) -> int {
        let d = self.seekpts@[i + 1] - self.seekpts@[i];
        if d >= SEPARATOR_WIDTH {
            d - SEPARATOR_WIDTH
        } else {
            0
        }
    }

    /// The record separator character: byte 0 of the padding region, or '%'
    /// where that byte is unset.
    pub open spec fn spec_separator(self) -> u8 {
        if self.stuff@[0] == 0 {
            DEFAULT_SEPARATOR
        } else {
            self.stuff@[0]
        }
    }

    /// Returns the record separator character.
    pub fn separator(&self) -> (r: u8)
        ensures
            r == self.spec_separator(),
    {
        if self.stuff[0] == 0 {
            DEFAULT_SEPARATOR
        } else {
            self.stuff[0]
        }
    }
}

/// Sorts a table of offsets in ascending numeric order, keeping exactly the
/// same entries.
pub fn sort_u32(v: &mut Vec<u32>)
    ensures
        sorted(final(v)@),
        final(v)@.to_multiset() == old(v)@.to_multiset(),
        final(v)@.len() == old(v)@.len(),
{
    let n = v.len();
    let mut out: Vec<u32> = Vec::with_capacity(n);
    assert(out@ =~= v@.take(0));
    for k in 0..n
        invariant
            n == v@.len(),
            sorted(out@),
            out@.to_multiset() == v@.take(k as int).to_multiset(),
            out@.len() == k,
    {
        let x = v[k];
        let mut idx: usize = 0;
        while idx < out.len() && out[idx] <= x
            invariant
                idx <= out@.len(),
                forall|m: int| 0 <= m < idx ==> out@[m] <= x,
            decreases out@.len() - idx,
        {
            idx += 1;
        }
        assert(forall|m: int| idx <= m < out@.len() ==> out@[m] > x) by {
            assert(forall|m: int| idx < m < out@.len() ==> out@[m] >= out@[idx as int]);
        }
        let ghost pre = out@;
        out.insert(idx, x);
        proof {
            to_multiset_insert(pre, idx as int, x);
            assert(v@.take(k + 1).drop_last() =~= v@.take(k as int));
            to_multiset_build(v@.take(k + 1).drop_last(), v@[k as int]);
            assert(v@.take(k + 1) =~= v@.take(k + 1).drop_last().push(v@[k as int]));
        }
        assert(sorted(out@)) by {
            assert(forall|m: int| 0 <= m < idx ==> out@[m] == pre[m]);
            assert(forall|m: int| idx < m < out@.len() ==> out@[m] == pre[m - 1]);
        }
    }
    proof {
        assert(v@.take(n as int) =~= v@);
    }
    *v = out;
}

/// The length-filter policy: a record of byte length `len` passes when the
/// long-only flag keeps only records longer than the threshold and the
/// short-only flag keeps only records no longer than it.
pub open spec fn passes_filter(len: int, slen: u32, long_only: bool, short_only: bool) -> bool {
    (!long_only || len > slen) && (!short_only || len <= slen)
}

/// The length filter partitions records: with a fixed threshold, a record
/// passes exactly one of the long-only and the short-only filters, and
/// always passes when neither flag is set.
pub proof fn lemma_filter_partition(len: int, slen: u32)
    ensures
        passes_filter(len, slen, true, false) <==> !passes_filter(len, slen, false, true),
        passes_filter(len, slen, false, false),
{
}

/// One cookie file: its name, its text, its decoded index and its selection
/// weight.
pub struct Strfile {
    /// The cookie file's name.
    pub name: String,
    /// The path the text was read from, kept for listings.
    pub path: String,
    /// Weight for the random pick: a numerator over the collection's common
    /// scale.  Starts as the record count, or as the declared percentage,
    /// and is overwritten by weight normalization.
    pub weight: u128,
    /// The percentage this source was explicitly given, if any.
    pub explicit: Option<u32>,
    /// The decoded index metadata.
    pub dat: Datfile,
    /// The companion text file's bytes.
    pub text: Vec<u8>,
}

impl Strfile {
    /// The number of records in this cookie file.
    pub fn num_str(&self) -> (r: usize)
        ensures
            r == self.dat.numstr as usize,
    {
        self.dat.numstr as usize
    }

    /// Version, longest record length, shortest record length and flags of
    /// the decoded index.
    pub fn info(&self) -> (r: (usize, usize, usize, u32))
        ensures
            r.0 == self.dat.version as usize,
            r.1 == self.dat.longlen as usize,
            r.2 == self.dat.shortlen as usize,
            r.3 == self.dat.flags,
    {
        let d = &self.dat;
        (d.version as usize, d.longlen as usize, d.shortlen as usize, d.flags)
    }

    /// The path this source was loaded from.
    pub fn filepath(&self) -> (r: &str)
        ensures
            r@ == self.path@,
    {
        self.path.as_str()
    }

    /// The record separator character of this source.
    pub fn separator(&self) -> (r: u8)
        ensures
            r == self.dat.spec_separator(),
    {
        self.dat.separator()
    }

    /// Binds a name, a text and a decoded index into a source.
    ///
    /// Fails exactly when the index bytes are not an acceptable index file.
    /// The weight starts as the declared percentage, or as the record count
    /// where none was declared.
    pub fn load(
        self,
        name: &str,
        path: &str,
        text: Vec<u8>,
        dat_bytes: &[u8],
        weight: Option<u32>,
    ) -> (r: Result<Strfile, FortuneError>)
        ensures
            match r {
                Ok(s) => {
                    &&& index_ok(dat_bytes@)
                    &&& s.dat.wf()
                    &&& decoded_from(s.dat, dat_bytes@)
                    &&& s.name@ == name@
                    &&& s.path@ == path@
                    &&& s.text@ == text@
                    &&& s.explicit == weight
                    &&& s.weight == match weight {
                        Some(p) => p as u128,
                        None => numstr_of(dat_bytes@) as u128,
                    }
                },
                Err(e) => e == FortuneError::Format && !index_ok(dat_bytes@),
            },
    {
        let dat = match Datfile::load(dat_bytes) {
            Ok(d) => d,
            Err(e) => {
                return Err(e);
            },
        };
        let w: u128 = match weight {
            Some(p) => p as u128,
            None => dat.numstr as u128,
        };
        Ok(
            Strfile {
                name: name.to_owned(),
                path: path.to_owned(),
                weight: w,
                explicit: weight,
                dat,
                text,
            },
        )
    }

    /// The length in bytes of record `i`.
    ///
    /// Fails exactly when `i` is not a record index of this source.
    pub fn record_length(&self, i: usize) -> (r: Result<u32, FortuneError>)
        requires
            self.dat.wf(),
        ensures
            match r {
                Ok(l) => i < self.dat.numstr && l == self.dat.spec_record_len(i as int),
                Err(e) => e == FortuneError::Bounds && i >= self.dat.numstr,
            },
    {
        if i >= self.dat.numstr as usize {
            return Err(FortuneError::Bounds);
        }
        let s = self.dat.start_of(i);
        let e = self.dat.end_of(i);
        if e as u64 >= s as u64 + SEPARATOR_WIDTH as u64 {
            Ok(e - s - SEPARATOR_WIDTH)
        } else {
            Ok(0)
        }
    }
}

impl Strfile {
    /// Whether the record text is stored rotated and must be decoded before
    /// display.
    pub open spec fn spec_rotated(self) -> bool {
        self.dat.flags & STRFILE_FLAG_ROTATED != 0
    }

    /// The text of record `i` as separator-scanning reads it: whole lines
    /// from the record's start offset up to a separator line, decoded when
    /// the source is rotated.
    pub open spec fn spec_record_text(self, i: int) -> Seq<u8> {
        let raw = scan_from(self.text@, self.dat.seekpts@[i] as int, self.dat.spec_separator());
        if self.spec_rotated() {
            rot_seq(raw)
        } else {
            raw
        }
    }

    /// The text of record `i` as exact-offset extraction reads it: the bytes
    /// between the record's offsets less the trailing separator, decoded
    /// when the source is rotated.
    pub open spec fn spec_record_exact(self, i: int) -> Seq<u8> {
        let s = self.dat.seekpts@[i] as int;
        let e = self.dat.seekpts@[i + 1] as int;
        let stop = if e - s >= SEPARATOR_WIDTH {
            e - SEPARATOR_WIDTH
        } else {
            s
        };
        let raw = self.text@.subrange(s, stop);
        if self.spec_rotated() {
            rot_seq(raw)
        } else {
            raw
        }
    }

    /// Record `i`'s offsets lie within the text, start before end.
    pub open spec fn record_in_bounds(self, i: int) -> bool {
        self.dat.seekpts@[i] <= self.dat.seekpts@[i + 1] <= self.text@.len()
    }

    /// The texts, in record order, of the records that pass the length
    /// filter and match the pattern, among the first `upto` records.
    pub open spec fn spec_search_results(
        self,
        pat: Seq<char>,
        ci: bool,
        slen: u32,
        long_only: bool,
        short_only: bool,
        upto: int,
    ) -> Seq<Seq<u8>>
        decreases upto,
    {
        if upto <= 0 {
            Seq::empty()
        } else {
            let prev = self.spec_search_results(pat, ci, slen, long_only, short_only, upto - 1);
            let i = upto - 1;
            if passes_filter(self.dat.spec_record_len(i), slen, long_only, short_only)
                && pattern_matches(pat, ci, self.spec_record_exact(i)) {
                prev.push(self.spec_record_exact(i))
            } else {
                prev
            }
        }
    }

    /// The indices, ascending, of the records that pass the length filter.
    pub fn matching_indices(&self, slen: u32, long_only: bool, short_only: bool) -> (r: Vec<u32>)
        requires
            self.dat.wf(),
        ensures
            forall|k: int|
                0 <= k < r@.len() ==> (#[trigger] r@[k]) < self.dat.numstr && passes_filter(
                    self.dat.spec_record_len(r@[k] as int),
                    slen,
                    long_only,
                    short_only,
                ),
            forall|i: u32|
                i < self.dat.numstr && passes_filter(
                    self.dat.spec_record_len(i as int),
                    slen,
                    long_only,
                    short_only,
                ) ==> #[trigger] r@.contains(i),
            forall|k1: int, k2: int| 0 <= k1 < k2 < r@.len() ==> r@[k1] < r@[k2],
    {
        let n = self.dat.numstr as usize;
        let mut out: Vec<u32> = Vec::new();
        let mut i: usize = 0;
        while i < n
            invariant
                self.dat.wf(),
                n == self.dat.numstr,
                i <= n,
                forall|k: int|
                    0 <= k < out@.len() ==> (#[trigger] out@[k]) < self.dat.numstr
                        && passes_filter(
                        self.dat.spec_record_len(out@[k] as int),
                        slen,
                        long_only,
                        short_only,
                    ),
                forall|q: u32|
                    q < i && passes_filter(
                        self.dat.spec_record_len(q as int),
                        slen,
                        long_only,
                        short_only,
                    ) ==> #[trigger] out@.contains(q),
                forall|k: int| 0 <= k < out@.len() ==> (#[trigger] out@[k]) < i,
                forall|k1: int, k2: int| 0 <= k1 < k2 < out@.len() ==> out@[k1] < out@[k2],
            decreases n - i,
        {
            let rl = match self.record_length(i) {
                Ok(l) => l,
                Err(_) => {
                    proof {
                        assert(false);
                    }
                    0
                },
            };
            let ghost pre = out@;
            if (!long_only || rl > slen) && (!short_only || rl <= slen) {
                out.push(i as u32);
                assert(out@[out@.len() - 1] == i as u32);
            }
            proof {
                assert forall|q: u32|
                    q < i + 1 && passes_filter(
                        self.dat.spec_record_len(q as int),
                        slen,
                        long_only,
                        short_only,
                    ) implies #[trigger] out@.contains(q) by {
                    if q < i {
                        assert(pre.contains(q));
                        let k = choose|k: int| 0 <= k < pre.len() && pre[k] == q;
                        assert(out@[k] == q);
                    } else {
                        assert(out@[out@.len() - 1] == q);
                    }
                }
            }
            i += 1;
        }
        out
    }

    /// One record, chosen uniformly at random among those that pass the
    /// length filter, read by separator-scanning and decoded when the source
    /// is rotated.
    ///
    /// Fails with `NoMatch` exactly when no record passes the filter, and
    /// with `Bounds` when the chosen record's start offset lies beyond the
    /// text; whenever some record passes and every passing record starts
    /// within the text, a record is returned.
    pub fn print_one(&self, slen: u32, long_only: bool, short_only: bool) -> (r: Result<
        Vec<u8>,
        FortuneError,
    >)
        requires
            self.dat.wf(),
        ensures
            match r {
                Ok(v) => exists|i: int|
                    0 <= i < self.dat.numstr && #[trigger] passes_filter(
                        self.dat.spec_record_len(i),
                        slen,
                        long_only,
                        short_only,
                    ) && self.dat.seekpts@[i] <= self.text@.len() && v@ == self.spec_record_text(i),
                Err(e) => {
                    ||| e == FortuneError::NoMatch
                    ||| (e == FortuneError::Bounds && exists|i: int|
                        0 <= i < self.dat.numstr && #[trigger] passes_filter(
                            self.dat.spec_record_len(i),
                            slen,
                            long_only,
                            short_only,
                        ) && self.dat.seekpts@[i] > self.text@.len())
                },
            },
            (r == Err::<Vec<u8>, FortuneError>(FortuneError::NoMatch) <==> (forall|i: int|
                0 <= i < self.dat.numstr ==> !passes_filter(
                    #[trigger] self.dat.spec_record_len(i),
                    slen,
                    long_only,
                    short_only,
                ))),
            ((exists|i: int|
                0 <= i < self.dat.numstr && #[trigger] passes_filter(
                    self.dat.spec_record_len(i),
                    slen,
                    long_only,
                    short_only,
                )) && (forall|i: int|
                0 <= i < self.dat.numstr && #[trigger] passes_filter(
                    self.dat.spec_record_len(i),
                    slen,
                    long_only,
                    short_only,
                ) ==> self.dat.seekpts@[i] <= self.text@.len())) ==> r is Ok,
    {
        let idx = self.matching_indices(slen, long_only, short_only);
        if idx.len() == 0 {
            proof {
                assert forall|i: int|
                    0 <= i < self.dat.numstr implies !passes_filter(
                    #[trigger] self.dat.spec_record_len(i),
                    slen,
                    long_only,
                    short_only,
                ) by {
                    if passes_filter(self.dat.spec_record_len(i), slen, long_only, short_only) {
                        assert(idx@.contains(i as u32));
                    }
                }
            }
            return Err(FortuneError::NoMatch);
        }
        assert(idx@[0] < self.dat.numstr && passes_filter(
            self.dat.spec_record_len(idx@[0] as int),
            slen,
            long_only,
            short_only,
        ));
        let which = random_below(idx.len() as u128);
        let wi = which as usize;
        let i = idx[wi];
        let start = self.dat.start_of(i as usize);
        let sep = self.dat.separator();
        match extract_scan(self.text.as_slice(), start, sep) {
            Ok(raw) => {
                if self.dat.is_rotated() {
                    Ok(rot13(raw.as_slice()))
                } else {
                    Ok(raw)
                }
            },
            Err(e) => Err(e),
        }
    }

    /// The text of record `i`, read by exact offsets: exactly
    /// `record_length(i)` bytes, decoded when the source is rotated.
    ///
    /// Fails exactly when `i` is not a record index or the record's offsets
    /// do not lie within the text.
    pub fn record_text_exact(&self, i: usize) -> (r: Result<Vec<u8>, FortuneError>)
        requires
            self.dat.wf(),
        ensures
            match r {
                Ok(v) => {
                    &&& i < self.dat.numstr
                    &&& self.record_in_bounds(i as int)
                    &&& v@ == self.spec_record_exact(i as int)
                    &&& v@.len() == self.dat.spec_record_len(i as int)
                },
                Err(e) => e == FortuneError::Bounds && (i >= self.dat.numstr
                    || !self.record_in_bounds(i as int)),
            },
    {
        if i >= self.dat.numstr as usize {
            return Err(FortuneError::Bounds);
        }
        let s = self.dat.start_of(i);
        let e = self.dat.end_of(i);
        match extract_exact(self.text.as_slice(), s, e) {
            Ok(raw) => {
                if self.dat.is_rotated() {
                    Ok(rot13(raw.as_slice()))
                } else {
                    Ok(raw)
                }
            },
            Err(err) => Err(err),
        }
    }

    /// The texts, in record order, of the records that pass the length
    /// filter and match the pattern.
    ///
    /// Fails exactly when some record's offsets do not lie within the text:
    /// no partial result is returned then.
    pub fn print_matches(&self, m: &Matcher, slen: u32, long_only: bool, short_only: bool) -> (r:
        Result<Vec<Vec<u8>>, FortuneError>)
        requires
            self.dat.wf(),
        ensures
            match r {
                Ok(v) => {
                    &&& forall|i: int|
                        0 <= i < self.dat.numstr ==> #[trigger] self.record_in_bounds(i)
                    &&& v@.len() == self.spec_search_results(
                        m.spec_pattern(),
                        m.spec_ci(),
                        slen,
                        long_only,
                        short_only,
                        self.dat.numstr as int,
                    ).len()
                    &&& forall|k: int|
                        0 <= k < v@.len() ==> (#[trigger] v@[k]@) == self.spec_search_results(
                            m.spec_pattern(),
                            m.spec_ci(),
                            slen,
                            long_only,
                            short_only,
                            self.dat.numstr as int,
                        )[k]
                },
                Err(e) => e == FortuneError::Bounds && exists|i: int|
                    0 <= i < self.dat.numstr && !(#[trigger] self.record_in_bounds(i)),
            },
    {
        let ghost pat = m.spec_pattern();
        let ghost ci = m.spec_ci();
        let n = self.dat.numstr as usize;
        let mut out: Vec<Vec<u8>> = Vec::new();
        let mut i: usize = 0;
        while i < n
            invariant
                self.dat.wf(),
                n == self.dat.numstr,
                i <= n,
                pat == m.spec_pattern(),
                ci == m.spec_ci(),
                forall|q: int| 0 <= q < i ==> #[trigger] self.record_in_bounds(q),
                out@.len() == self.spec_search_results(
                    pat,
                    ci,
                    slen,
                    long_only,
                    short_only,
                    i as int,
                ).len(),
                forall|k: int|
                    0 <= k < out@.len() ==> (#[trigger] out@[k]@) == self.spec_search_results(
                        pat,
                        ci,
                        slen,
                        long_only,
                        short_only,
                        i as int,
                    )[k],
            decreases n - i,
        {
            let rt = match self.record_text_exact(i) {
                Ok(v) => v,
                Err(e) => {
                    return Err(e);
                },
            };
            let rl = match self.record_length(i) {
                Ok(l) => l,
                Err(_) => {
                    proof {
                        assert(false);
                    }
                    0
                },
            };
            let ghost prev = self.spec_search_results(pat, ci, slen, long_only, short_only, i as int);
            if ((!long_only || rl > slen) && (!short_only || rl <= slen)) && m.is_match(
                rt.as_slice(),
            ) {
                out.push(rt);
            }
            i += 1;
            proof {
                let cur = self.spec_search_results(pat, ci, slen, long_only, short_only, i as int);
                if passes_filter(self.dat.spec_record_len(i - 1), slen, long_only, short_only)
                    && pattern_matches(pat, ci, self.spec_record_exact(i - 1)) {
                    assert(cur == prev.push(self.spec_record_exact(i - 1)));
                } else {
                    assert(cur == prev);
                }
            }
        }
        Ok(out)
    }
}

/// A record's length is never negative, and extracting a record by its
/// exact offsets yields exactly that many bytes of text: rotation decoding
/// changes no length.
pub proof fn lemma_record_extraction_length(s: Strfile, i: int)
    requires
        0 <= i < s.dat.numstr,
        s.dat.seekpts@.len() == s.dat.numstr + 1,
        s.record_in_bounds(i),
    ensures
        s.dat.spec_record_len(i) >= 0,
        s.spec_record_exact(i).len() == s.dat.spec_record_len(i),
{
}

/// An empty source, to be filled by `Strfile::load`.
pub fn new() -> (r: Strfile)
    ensures
        r.name@.len() == 0,
        r.path@.len() == 0,
        r.weight == 0,
        r.explicit is None,
        r.dat.numstr == 0,
        r.dat.wf(),
        r.text@.len() == 0,
{
    let mut seekpts: Vec<u32> = Vec::new();
    seekpts.push(0);
    Strfile {
        name: String::new(),
        path: String::new(),
        weight: 0,
        explicit: None,
        dat: Datfile {
            version: 0,
            numstr: 0,
            longlen: 0,
            shortlen: 0,
            flags: 0,
            stuff: [0, 0, 0, 0],
            seekpts,
        },
        text: Vec::new(),
    }
}

} // verus!
