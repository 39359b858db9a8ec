use vstd::prelude::*;

verus! {

/// The byte that separates records in the corpus: `%`.
pub const DELIMITER: u8 = 37u8;

/// The offset of the first delimiter at or after `from`, if any.
pub open spec fn next_delimiter(file: Seq<u8>, from: int) -> Option<int>
    decreases file.len() - from,
{
    if from < 0 || from >= file.len() {
        None
    } else if file[from] == DELIMITER {
        Some(from)
    } else {
        next_delimiter(file, from + 1)
    }
}

/// The offset of the last delimiter strictly before `before`, if any.
pub open spec fn prev_delimiter(file: Seq<u8>, before: int) -> Option<int>
    decreases before,
{
    if before <= 0 || before > file.len() {
        None
    } else if file[before - 1] == DELIMITER {
        Some(before - 1)
    } else {
        prev_delimiter(file, before - 1)
    }
}

/// One move of a directional scan: read a window, report a delimiter, or give up.
pub enum ScanStep {
    Read(u32, u32),
    Found(u32),
    NotFound,
}

/// A forward search for the first delimiter at or after a start offset, reading
/// `[pos, end)` in windows of `width` bytes. `end` is the file's size.
#[derive(Clone, Copy)]
pub struct ForwardScan {
    pub pos: u32,
    pub end: u32,
    pub width: u32,
}

/// A backward search for the last delimiter before `hi`, reading `[0, hi)` in windows of
/// `width` bytes from the back.
#[derive(Clone, Copy)]
pub struct BackwardScan {
    pub hi: u32,
    pub width: u32,
}

/// Where the next forward window ends.
pub open spec fn forward_end(pos: u32, end: u32, width: u32) -> u32 {
    if end - pos <= width {
        end
    } else {
        (pos + width) as u32
    }
}

/// Where the next backward window starts.
pub open spec fn backward_start(hi: u32, width: u32) -> u32 {
    if hi <= width {
        0
    } else {
        (hi - width) as u32
    }
}

/// Scanning forward inside the window `[s, e)` of the file agrees with scanning the file:
/// a delimiter found from window offset `k` is the file's first from `s + k`, and a
/// window without one passes the search on to `e`.
pub proof fn lemma_forward_window(file: Seq<u8>, s: int, e: int, k: int)
    requires
        0 <= s <= e <= file.len(),
        0 <= k <= e - s,
    ensures
        next_delimiter(file.subrange(s, e), k) matches Some(i) ==> next_delimiter(file, s + k)
            == Some(s + i),
        next_delimiter(file.subrange(s, e), k) is None ==> next_delimiter(file, s + k)
            == next_delimiter(file, e),
    decreases e - s - k,
{
    if k < e - s {
        lemma_forward_window(file, s, e, k + 1);
    }
}

/// Scanning backward inside the window `[s, e)` of the file agrees with scanning the
/// file: a delimiter found before window offset `k` is the file's last before `s + k`,
/// and a window without one passes the search on to `s`.
pub proof fn lemma_backward_window(file: Seq<u8>, s: int, e: int, k: int)
    requires
        0 <= s <= e <= file.len(),
        0 <= k <= e - s,
    ensures
        prev_delimiter(file.subrange(s, e), k) matches Some(i) ==> prev_delimiter(file, s + k)
            == Some(s + i),
        prev_delimiter(file.subrange(s, e), k) is None ==> prev_delimiter(file, s + k)
            == prev_delimiter(file, s),
    decreases k,
{
    if k > 0 {
        lemma_backward_window(file, s, e, k - 1);
    }
}

/// What a forward search result says of the file: a delimiter there, none before it.
pub proof fn lemma_next_facts(file: Seq<u8>, k: int)
    ensures
        next_delimiter(file, k) matches Some(n) ==> k <= n < file.len() && file[n] == DELIMITER
            && forall|i: int| k <= i < n ==> file[i] != DELIMITER,
    decreases file.len() - k,
{
    if 0 <= k < file.len() && file[k] != DELIMITER {
        lemma_next_facts(file, k + 1);
    }
}

/// What a backward search result says of the file: a delimiter there, none after it
/// before `k`.
pub proof fn lemma_prev_facts(file: Seq<u8>, k: int)
    ensures
        prev_delimiter(file, k) matches Some(p) ==> 0 <= p < k && file[p] == DELIMITER
            && forall|i: int| p < i < k ==> file[i] != DELIMITER,
    decreases k,
{
    if 0 < k <= file.len() && file[k - 1] != DELIMITER {
        lemma_prev_facts(file, k - 1);
    }
}

/// A delimiter at `a` with none in `(a, k)` is the last one before `k`.
proof fn lemma_prev_is(file: Seq<u8>, a: int, k: int)
    requires
        0 <= a < k <= file.len(),
        file[a] == DELIMITER,
        forall|i: int| a < i < k ==> file[i] != DELIMITER,
    ensures
        prev_delimiter(file, k) == Some(a),
    decreases k - a,
{
    if k - 1 > a {
        lemma_prev_is(file, a, k - 1);
    }
}

/// A delimiter at `b` with none in `[k, b)` is the first one from `k`.
proof fn lemma_next_is(file: Seq<u8>, k: int, b: int)
    requires
        0 <= k <= b < file.len(),
        file[b] == DELIMITER,
        forall|i: int| k <= i < b ==> file[i] != DELIMITER,
    ensures
        next_delimiter(file, k) == Some(b),
    decreases b - k,
{
    if k < b {
        lemma_next_is(file, k + 1, b);
    }
}

/// On a file with exactly two delimiters, at `a < b`, a forward search from any offset
/// after `a` and not after `b` finds `b`, and a backward search before that result finds
/// the other delimiter, `a`.
pub proof fn lemma_next_then_prev(file: Seq<u8>, a: int, b: int, from: int)
    requires
        0 <= a < b < file.len(),
        forall|i: int| 0 <= i < file.len() ==> (#[trigger] file[i] == DELIMITER <==> i == a || i == b),
        a < from <= b,
    ensures
        next_delimiter(file, from) == Some(b),
        prev_delimiter(file, b) == Some(a),
{
    lemma_next_is(file, from, b);
    lemma_prev_is(file, a, b);
}

/// The offset of the first delimiter in `bytes`.
fn first_delimiter(bytes: &[u8]) -> (r: Option<usize>)
    ensures
        r matches Some(i) ==> i < bytes@.len() && next_delimiter(bytes@, 0) == Some(i as int),
        r is None ==> next_delimiter(bytes@, 0) is None,
{
    let mut i: usize = 0;
    while i < bytes.len()
        invariant
            i <= bytes@.len(),
            next_delimiter(bytes@, 0) == next_delimiter(bytes@, i as int),
        decreases bytes@.len() - i,
    {
        if bytes[i] == DELIMITER {
            return Some(i);
        }
        i = i + 1;
    }
    None
}

/// The offset of the last delimiter in `bytes`.
fn last_delimiter(bytes: &[u8]) -> (r: Option<usize>)
    ensures
        r matches Some(i) ==> i < bytes@.len() && prev_delimiter(bytes@, bytes@.len() as int)
            == Some(i as int),
        r is None ==> prev_delimiter(bytes@, bytes@.len() as int) is None,
{
    let mut i: usize = bytes.len();
    while i > 0
        invariant
            i <= bytes@.len(),
            prev_delimiter(bytes@, bytes@.len() as int) == prev_delimiter(bytes@, i as int),
        decreases i,
    {
        if bytes[i - 1] == DELIMITER {
            return Some(i - 1);
        }
        i = i - 1;
    }
    None
}

impl ForwardScan {
    pub open spec fn wf(&self) -> bool {
        self.pos <= self.end && self.width >= 1
    }

    /// What the scan asks for next.
    pub open spec fn request_spec(&self) -> ScanStep {
        if self.pos < self.end {
            ScanStep::Read(self.pos, forward_end(self.pos, self.end, self.width))
        } else {
            ScanStep::NotFound
        }
    }

    /// A search from `from` to the end of a file of `end` bytes.
    pub fn new(from: u32, end: u32, width: u32) -> (s: ForwardScan)
        requires
            width >= 1,
        ensures
            s.wf(),
            s.end == end,
            s.width == width,
            from <= end ==> s.pos == from,
            from > end ==> s.pos == end,
    {
        ForwardScan { pos: if from <= end { from } else { end }, end, width }
    }

    /// The window to read next, or `NotFound` when the end of the file is reached.
    pub fn request(&self) -> (r: ScanStep)
        requires
            self.wf(),
        ensures
            r == self.request_spec(),
    {
        if self.pos < self.end {
            let e: u32 = if self.end - self.pos <= self.width {
                self.end
            } else {
                self.pos + self.width
            };
            ScanStep::Read(self.pos, e)
        } else {
            ScanStep::NotFound
        }
    }

    /// Takes the bytes of the requested window. For every file of `end` bytes whose
    /// window they are: `Found(o)` gives the file's first delimiter from the old
    /// position, `NotFound` says there is none, and `Read` asks for the next window
    /// with the search unchanged.
    pub fn feed(&mut self, bytes: &[u8]) -> (r: ScanStep)
        requires
            old(self).wf(),
            old(self).pos < old(self).end,
            bytes@.len() == forward_end(old(self).pos, old(self).end, old(self).width) - old(
                self,
            ).pos,
        ensures
            final(self).wf(),
            final(self).end == old(self).end,
            final(self).width == old(self).width,
            r is Read ==> r == final(self).request_spec() && old(self).pos < final(self).pos,
            r matches ScanStep::Found(o) ==> old(self).pos <= o < forward_end(
                old(self).pos,
                old(self).end,
                old(self).width,
            ),
            forall|file: Seq<u8>|
                file.len() == old(self).end && bytes@ == file.subrange(
                    old(self).pos as int,
                    forward_end(old(self).pos, old(self).end, old(self).width) as int,
                ) ==> match r {
                    ScanStep::Found(o) => #[trigger] next_delimiter(file, old(self).pos as int)
                        == Some(o as int),
                    ScanStep::NotFound => next_delimiter(file, old(self).pos as int) is None,
                    ScanStep::Read(_, _) => next_delimiter(file, old(self).pos as int)
                        == next_delimiter(file, final(self).pos as int),
                },
    {
        let ghost start = self.pos;
        let ghost e = forward_end(self.pos, self.end, self.width);
        match first_delimiter(bytes) {
            Some(i) => {
                proof {
                    assert forall|file: Seq<u8>|
                        file.len() == self.end && bytes@ == file.subrange(
                            start as int,
                            e as int,
                        ) implies #[trigger] next_delimiter(file, start as int) == Some(
                        start + i,
                    ) by {
                        lemma_forward_window(file, start as int, e as int, 0);
                    }
                }
                ScanStep::Found(self.pos + i as u32)
            },
            None => {
                self.pos = self.pos + bytes.len() as u32;
                proof {
                    assert forall|file: Seq<u8>|
                        file.len() == self.end && bytes@ == file.subrange(
                            start as int,
                            e as int,
                        ) implies #[trigger] next_delimiter(file, start as int)
                        == next_delimiter(file, e as int) by {
                        lemma_forward_window(file, start as int, e as int, 0);
                    }
                }
                self.request()
            },
        }
    }
}

impl BackwardScan {
    pub open spec fn wf(&self) -> bool {
        self.width >= 1
    }

    /// What the scan asks for next.
    pub open spec fn request_spec(&self) -> ScanStep {
        if self.hi > 0 {
            ScanStep::Read(backward_start(self.hi, self.width), self.hi)
        } else {
            ScanStep::NotFound
        }
    }

    /// A search for the last delimiter before `before`.
    pub fn new(before: u32, width: u32) -> (s: BackwardScan)
        requires
            width >= 1,
        ensures
            s.wf(),
            s.hi == before,
            s.width == width,
    {
        BackwardScan { hi: before, width }
    }

    /// The window to read next, or `NotFound` when the start of the file is reached.
    pub fn request(&self) -> (r: ScanStep)
        requires
            self.wf(),
        ensures
            r == self.request_spec(),
    {
        if self.hi > 0 {
            let s: u32 = if self.hi <= self.width {
                0
            } else {
                self.hi - self.width
            };
            ScanStep::Read(s, self.hi)
        } else {
            ScanStep::NotFound
        }
    }

    /// Takes the bytes of the requested window. For every file that holds at least `hi`
    /// bytes and whose window they are: `Found(o)` gives the file's last delimiter before
    /// the old `hi`, `NotFound` says there is none, and `Read` asks for the next window
    /// with the search unchanged.
    pub fn feed(&mut self, bytes: &[u8]) -> (r: ScanStep)
        requires
            old(self).wf(),
            old(self).hi > 0,
            bytes@.len() == old(self).hi - backward_start(old(self).hi, old(self).width),
        ensures
            final(self).wf(),
            final(self).width == old(self).width,
            r is Read ==> r == final(self).request_spec() && final(self).hi < old(self).hi,
            r matches ScanStep::Found(o) ==> backward_start(old(self).hi, old(self).width) <= o
                < old(self).hi,
            forall|file: Seq<u8>|
                old(self).hi <= file.len() && bytes@ == file.subrange(
                    backward_start(old(self).hi, old(self).width) as int,
                    old(self).hi as int,
                ) ==> match r {
                    ScanStep::Found(o) => #[trigger] prev_delimiter(file, old(self).hi as int)
                        == Some(o as int),
                    ScanStep::NotFound => prev_delimiter(file, old(self).hi as int) is None,
                    ScanStep::Read(_, _) => prev_delimiter(file, old(self).hi as int)
                        == prev_delimiter(file, final(self).hi as int),
                },
    {
        let ghost hi = self.hi;
        let ghost s = backward_start(self.hi, self.width);
        let lo: u32 = self.hi - bytes.len() as u32;
        match last_delimiter(bytes) {
            Some(i) => {
                proof {
                    assert forall|file: Seq<u8>|
                        hi <= file.len() && bytes@ == file.subrange(
                            s as int,
                            hi as int,
                        ) implies #[trigger] prev_delimiter(file, hi as int) == Some(
                        s + i,
                    ) by {
                        lemma_backward_window(file, s as int, hi as int, hi - s);
                    }
                }
                ScanStep::Found(lo + i as u32)
            },
            None => {
                self.hi = lo;
                proof {
                    assert forall|file: Seq<u8>|
                        hi <= file.len() && bytes@ == file.subrange(
                            s as int,
                            hi as int,
                        ) implies #[trigger] prev_delimiter(file, hi as int)
                        == prev_delimiter(file, s as int) by {
                        lemma_backward_window(file, s as int, hi as int, hi - s);
                    }
                }
                self.request()
            },
        }
    }
}

} // verus!
