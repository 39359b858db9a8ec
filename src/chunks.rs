use vstd::prelude::*;
use crate::dirs::{DirManager, joined_path, CONTENT_FILE};
use crate::partition::{divide_range_into_intervals, windows_of};

verus! {

/// How many bytes of a record are read and decoded at a time.
pub const INTERVAL: u32 = 5;

/// One window `[start, end)` of a record's bytes.
#[derive(Clone, Copy)]
pub struct Joke {
    pub start: u32,
    pub end: u32,
}

/// The windows `chunks` have the spans `w`, in order.
pub open spec fn has_spans(chunks: Seq<Joke>, w: Seq<(u32, u32)>) -> bool {
    &&& chunks.len() == w.len()
    &&& forall|k: int| 0 <= k < w.len() ==> (#[trigger] chunks[k].start, chunks[k].end) == w[k]
}

/// The windows of one record in the corpus file at `path`, with a cursor on the next
/// one to read.
pub struct Utf8Chunk {
    pub chunks: Vec<Joke>,
    pub index: usize,
    pub path: String,
}

impl Utf8Chunk {
    /// The span of the window under the cursor, moving past it; `None` once every window
    /// has been handed out.
    pub fn next(&mut self) -> (r: Option<(u32, u32)>)
        ensures
            final(self).chunks@ == old(self).chunks@,
            final(self).path@ == old(self).path@,
            old(self).index < old(self).chunks@.len() ==> r == Some(
                (
                    old(self).chunks@[old(self).index as int].start,
                    old(self).chunks@[old(self).index as int].end,
                ),
            ) && final(self).index == old(self).index + 1,
            old(self).index >= old(self).chunks@.len() ==> r is None && final(self).index
                == old(self).index,
    {
        if self.index < self.chunks.len() {
            let j = self.chunks[self.index];
            self.index = self.index + 1;
            Some((j.start, j.end))
        } else {
            None
        }
    }

    /// Whether every window has been handed out.
    pub fn is_done(&self) -> (r: bool)
        ensures
            r == (self.index >= self.chunks@.len()),
    {
        self.index >= self.chunks.len()
    }
}

/// The windows of `INTERVAL` bytes over the record `[start, end)` of the cached corpus,
/// with the cursor on the first.
pub fn prepare_chunks(dir_manager: &DirManager, start: u32, end: u32) -> (r: Utf8Chunk)
    ensures
        has_spans(r.chunks@, windows_of(start, end, INTERVAL)),
        r.index == 0,
        r.path@ == joined_path(dir_manager.base_dir@, CONTENT_FILE@),
{
    let ranges = divide_range_into_intervals(start, end, INTERVAL);
    let mut chunks: Vec<Joke> = Vec::new();
    let mut i: usize = 0;
    while i < ranges.len()
        invariant
            i <= ranges@.len(),
            has_spans(chunks@, ranges@.subrange(0, i as int)),
        decreases ranges@.len() - i,
    {
        let (s, e) = ranges[i];
        chunks.push(Joke { start: s, end: e });
        assert forall|k: int| 0 <= k <= i implies (#[trigger] chunks@[k].start, chunks@[k].end)
            == ranges@.subrange(0, i + 1)[k] by {
            if k < i {
                assert(ranges@.subrange(0, i as int)[k] == ranges@[k]);
            }
        }
        i = i + 1;
    }
    assert(ranges@.subrange(0, ranges@.len() as int) == ranges@);
    Utf8Chunk { chunks, index: 0, path: dir_manager.get_content_path() }
}

} // verus!
