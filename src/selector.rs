use rand::Rng;
use vstd::prelude::*;
use crate::locator::{
    next_delimiter, prev_delimiter, lemma_next_facts, lemma_prev_facts, forward_end,
    backward_start, ForwardScan, BackwardScan, ScanStep, DELIMITER,
};

verus! {

/// Relies on rand's `thread_rng().gen_range(0..bound)`: a value drawn from the half-open
/// range, which `gen_range` asserts to be non-empty.
#[verifier::external_body]
fn random_below(bound: usize) -> (r: usize)
    requires
        bound > 0,
    ensures
        r < bound,
{
    rand::thread_rng().gen_range(0..bound)
}

/// The record that a probe at `probe` lands in: from just after the last delimiter before
/// the first delimiter at or after `probe`, up to that delimiter.
pub open spec fn probe_record(file: Seq<u8>, probe: int) -> Option<(int, int)> {
    match next_delimiter(file, probe) {
        Some(n) => match prev_delimiter(file, n) {
            Some(p) => Some((p + 1, n)),
            None => None,
        },
        None => None,
    }
}

/// One move of the random-probe selection.
pub enum ProbeStep {
    Read(u32, u32),
    Record(u32, u32),
    NotFound,
}

/// The search under way: forward for the next delimiter, then backward from it (`next`).
#[derive(Clone, Copy)]
pub enum ProbePhase {
    Forward(ForwardScan),
    Backward(BackwardScan, u32),
}

/// Selection of the record around a probe offset in a file of `file_size` bytes. The
/// caller reads each requested window and feeds its bytes back.
#[derive(Clone, Copy)]
pub struct LazyProbe {
    pub probe: u32,
    pub file_size: u32,
    pub phase: ProbePhase,
}

impl LazyProbe {
    pub open spec fn wf(&self) -> bool {
        &&& self.probe < self.file_size
        &&& match self.phase {
            ProbePhase::Forward(f) => f.wf() && f.end == self.file_size && f.pos < f.end,
            ProbePhase::Backward(b, n) => b.wf() && 0 < b.hi <= n < self.file_size,
        }
    }

    /// The search state is still on course for the record around `probe` in `file`.
    pub open spec fn agrees(&self, file: Seq<u8>) -> bool {
        &&& file.len() == self.file_size
        &&& match self.phase {
            ProbePhase::Forward(f) => next_delimiter(file, f.pos as int) == next_delimiter(
                file,
                self.probe as int,
            ),
            ProbePhase::Backward(b, n) => next_delimiter(file, self.probe as int) == Some(
                n as int,
            ) && prev_delimiter(file, b.hi as int) == prev_delimiter(file, n as int),
        }
    }

    /// The window that the search reads next.
    pub open spec fn window(&self) -> (u32, u32) {
        match self.phase {
            ProbePhase::Forward(f) => (f.pos, forward_end(f.pos, f.end, f.width)),
            ProbePhase::Backward(b, _) => (backward_start(b.hi, b.width), b.hi),
        }
    }

    /// An upper bound on the windows still to read.
    pub open spec fn remaining(&self) -> nat {
        match self.phase {
            ProbePhase::Forward(f) => (2 * self.file_size as int + 1 - f.pos) as nat,
            ProbePhase::Backward(b, _) => b.hi as nat,
        }
    }

    /// A search around `probe`, reading windows of `width` bytes.
    pub fn new(probe: u32, file_size: u32, width: u32) -> (s: LazyProbe)
        requires
            probe < file_size,
            width >= 1,
        ensures
            s.wf(),
            s.probe == probe,
            s.file_size == file_size,
            s.phase == ProbePhase::Forward(ForwardScan { pos: probe, end: file_size, width }),
            forall|file: Seq<u8>| file.len() == file_size ==> #[trigger] s.agrees(file),
    {
        LazyProbe { probe, file_size, phase: ProbePhase::Forward(ForwardScan::new(probe, file_size, width)) }
    }

    /// A search around a probe drawn uniformly from `[0, file_size)`.
    pub fn random(file_size: u32, width: u32) -> (s: LazyProbe)
        requires
            file_size > 0,
            width >= 1,
        ensures
            s.wf(),
            s.probe < file_size,
            s.file_size == file_size,
            s.phase == ProbePhase::Forward(ForwardScan { pos: s.probe, end: file_size, width }),
            forall|file: Seq<u8>| file.len() == file_size ==> #[trigger] s.agrees(file),
    {
        let probe = random_below(file_size as usize) as u32;
        LazyProbe::new(probe, file_size, width)
    }

    /// The window to read next.
    pub fn request(&self) -> (r: ProbeStep)
        requires
            self.wf(),
        ensures
            r == ProbeStep::Read(self.window().0, self.window().1),
    {
        match &self.phase {
            ProbePhase::Forward(f) => match f.request() {
                ScanStep::Read(s, e) => ProbeStep::Read(s, e),
                _ => ProbeStep::NotFound,
            },
            ProbePhase::Backward(b, _) => match b.request() {
                ScanStep::Read(s, e) => ProbeStep::Read(s, e),
                _ => ProbeStep::NotFound,
            },
        }
    }

    /// Takes the bytes of the requested window. For every file of `file_size` bytes on
    /// which the search is on course and whose window they are: `Record(s, e)` is the
    /// record around the probe, `NotFound` says there is none, and `Read` asks for the
    /// next window with the search still on course and fewer windows left.
    pub fn feed(&mut self, bytes: &[u8]) -> (r: ProbeStep)
        requires
            old(self).wf(),
            bytes@.len() == old(self).window().1 - old(self).window().0,
        ensures
            final(self).probe == old(self).probe,
            final(self).file_size == old(self).file_size,
            r is Read ==> final(self).wf() && r == ProbeStep::Read(
                final(self).window().0,
                final(self).window().1,
            ) && final(self).remaining() < old(self).remaining(),
            forall|file: Seq<u8>|
                #[trigger] old(self).agrees(file) && bytes@ == file.subrange(
                    old(self).window().0 as int,
                    old(self).window().1 as int,
                ) ==> match r {
                    ProbeStep::Read(_, _) => final(self).agrees(file),
                    ProbeStep::Record(s, e) => probe_record(file, old(self).probe as int)
                        == Some((s as int, e as int)),
                    ProbeStep::NotFound => probe_record(file, old(self).probe as int) is None,
                },
    {
        match self.phase {
            ProbePhase::Forward(f0) => {
                let mut f = f0;
                let step = f.feed(bytes);
                match step {
                    ScanStep::Read(s, e) => {
                        self.phase = ProbePhase::Forward(f);
                        ProbeStep::Read(s, e)
                    },
                    ScanStep::NotFound => ProbeStep::NotFound,
                    ScanStep::Found(n) => {
                        if n == 0 {
                            ProbeStep::NotFound
                        } else {
                            let b = BackwardScan::new(n, f.width);
                            self.phase = ProbePhase::Backward(b, n);
                            match b.request() {
                                ScanStep::Read(s, e) => ProbeStep::Read(s, e),
                                _ => ProbeStep::NotFound,
                            }
                        }
                    },
                }
            },
            ProbePhase::Backward(b0, n) => {
                let mut b = b0;
                let step = b.feed(bytes);
                match step {
                    ScanStep::Read(s, e) => {
                        self.phase = ProbePhase::Backward(b, n);
                        ProbeStep::Read(s, e)
                    },
                    ScanStep::NotFound => ProbeStep::NotFound,
                    ScanStep::Found(p) => ProbeStep::Record(p + 1, n),
                }
            },
        }
    }
}

/// When the probe does not itself land on a delimiter, the record that it selects
/// contains it.
pub proof fn lemma_probe_inside_record(file: Seq<u8>, probe: int)
    requires
        0 <= probe < file.len(),
        file[probe] != DELIMITER,
    ensures
        probe_record(file, probe) matches Some((s, e)) ==> s <= probe < e,
{
    lemma_next_facts(file, probe);
    if let Some(n) = next_delimiter(file, probe) {
        lemma_prev_facts(file, n);
        if let Some(p) = prev_delimiter(file, n) {
            if p >= probe {
                assert(file[p] != DELIMITER);
            }
        }
    }
}

/// The offsets `base + i`, for `i < n`, of the delimiters among the first `n` bytes.
pub open spec fn delimiter_offsets(bytes: Seq<u8>, base: int, n: int) -> Seq<u32>
    decreases n,
{
    if n <= 0 || n > bytes.len() {
        seq![]
    } else if bytes[n - 1] == DELIMITER {
        delimiter_offsets(bytes, base, n - 1).push((base + n - 1) as u32)
    } else {
        delimiter_offsets(bytes, base, n - 1)
    }
}

/// Indexing a file window by window finds the same delimiters as indexing it whole: the
/// offsets up to `e` are those up to `s` followed by those of the window `[s, e)`.
pub proof fn lemma_delimiter_offsets_split(file: Seq<u8>, s: int, e: int)
    requires
        0 <= s <= e <= file.len(),
    ensures
        delimiter_offsets(file, 0, e) == delimiter_offsets(file, 0, s) + delimiter_offsets(
            file.subrange(s, e),
            s,
            e - s,
        ),
    decreases e - s,
{
    if s < e {
        lemma_delimiter_offsets_split(file, s, e - 1);
        let w = file.subrange(s, e);
        let w1 = file.subrange(s, e - 1);
        assert(delimiter_offsets(w, s, e - 1 - s) == delimiter_offsets(w1, s, e - 1 - s)) by {
            lemma_offsets_prefix(w, w1, s, e - 1 - s);
        }
    } else {
        assert(delimiter_offsets(file, 0, s) + seq![] == delimiter_offsets(file, 0, s));
    }
}

/// The delimiter offsets among the first `n` bytes depend on those bytes alone.
proof fn lemma_offsets_prefix(a: Seq<u8>, b: Seq<u8>, base: int, n: int)
    requires
        0 <= n <= a.len(),
        n <= b.len(),
        forall|i: int| 0 <= i < n ==> a[i] == b[i],
    ensures
        delimiter_offsets(a, base, n) == delimiter_offsets(b, base, n),
    decreases n,
{
    if n > 0 {
        lemma_offsets_prefix(a, b, base, n - 1);
    }
}

/// The records between consecutive delimiter offsets: `(d + 1, d')` for each pair `d, d'`
/// at least two apart; a pair with nothing between them gives no record.
pub open spec fn records_between(d: Seq<u32>) -> Seq<(u32, u32)>
    decreases d.len(),
{
    if d.len() < 2 {
        seq![]
    } else {
        let a = d[d.len() - 2];
        let b = d[d.len() - 1];
        if b - a > 1 {
            records_between(d.drop_last()).push(((a + 1) as u32, b))
        } else {
            records_between(d.drop_last())
        }
    }
}

/// The delimiter offsets of a corpus, gathered window by window as the corpus is read
/// from the start.
pub struct DelimiterIndex {
    pub offsets: Vec<u32>,
    pub scanned: u32,
}

impl DelimiterIndex {
    /// An index of nothing read yet.
    pub fn new() -> (r: DelimiterIndex)
        ensures
            r.offsets@ == Seq::<u32>::empty(),
            r.scanned == 0,
    {
        DelimiterIndex { offsets: Vec::new(), scanned: 0 }
    }

    /// Takes the next bytes of the corpus, `[scanned, scanned + len)`, and records the
    /// offsets of the delimiters among them.
    pub fn feed(&mut self, bytes: &[u8])
        requires
            old(self).scanned + bytes@.len() <= u32::MAX,
        ensures
            final(self).scanned == old(self).scanned + bytes@.len(),
            final(self).offsets@ == old(self).offsets@ + delimiter_offsets(
                bytes@,
                old(self).scanned as int,
                bytes@.len() as int,
            ),
    {
        let ghost start = self.offsets@;
        let mut i: usize = 0;
        while i < bytes.len()
            invariant
                i <= bytes@.len(),
                self.scanned == old(self).scanned,
                self.scanned + bytes@.len() <= u32::MAX,
                self.offsets@ == start + delimiter_offsets(bytes@, self.scanned as int, i as int),
            decreases bytes@.len() - i,
        {
            if bytes[i] == DELIMITER {
                self.offsets.push(self.scanned + i as u32);
                assert(self.offsets@ == start + delimiter_offsets(
                    bytes@,
                    self.scanned as int,
                    i + 1,
                ));
            }
            i = i + 1;
        }
        self.scanned = self.scanned + bytes.len() as u32;
    }
}

/// The records between consecutive delimiters at `offsets`, skipping those of zero width.
pub fn records_from_delimiters(offsets: &Vec<u32>) -> (r: Vec<(u32, u32)>)
    ensures
        r@ == records_between(offsets@),
{
    let mut out: Vec<(u32, u32)> = Vec::new();
    let mut i: usize = 1;
    if offsets.len() < 2 {
        return out;
    }
    while i < offsets.len()
        invariant
            1 <= i <= offsets@.len(),
            out@ == records_between(offsets@.subrange(0, i as int)),
        decreases offsets@.len() - i,
    {
        let a = offsets[i - 1];
        let b = offsets[i];
        assert(offsets@.subrange(0, i + 1).drop_last() == offsets@.subrange(0, i as int));
        if a < b && b - a > 1 {
            out.push((a + 1, b));
        }
        i = i + 1;
    }
    assert(offsets@.subrange(0, i as int) == offsets@);
    out
}

/// One of `records`, drawn uniformly; `None` when there is none to draw.
pub fn choose_record(records: &Vec<(u32, u32)>) -> (r: Option<(u32, u32)>)
    ensures
        r is None <==> records@.len() == 0,
        r matches Some(x) ==> records@.contains(x),
{
    if records.len() == 0 {
        None
    } else {
        let k = random_below(records.len());
        Some(records[k])
    }
}

} // verus!
