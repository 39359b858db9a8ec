use vstd::prelude::*;

verus! {

/// The four bytes `\r\n\r\n` start at `i`: the blank line that ends an HTTP header.
pub open spec fn blank_line_at(r: Seq<u8>, i: int) -> bool {
    &&& 0 <= i
    &&& i + 4 <= r.len()
    &&& r[i] == 13u8
    &&& r[i + 1] == 10u8
    &&& r[i + 2] == 13u8
    &&& r[i + 3] == 10u8
}

/// Where the body of an HTTP response starts: just after the first blank line, or `None`
/// when the response holds no complete header.
pub fn body_start(response: &[u8]) -> (r: Option<usize>)
    ensures
        r matches Some(k) ==> 4 <= k <= response@.len() && blank_line_at(response@, k - 4)
            && forall|j: int| 0 <= j < k - 4 ==> !#[trigger] blank_line_at(response@, j),
        r is None ==> forall|j: int| !#[trigger] blank_line_at(response@, j),
{
    let n = response.len();
    let mut i: usize = 0;
    if n < 4 {
        return None;
    }
    while i <= n - 4
        invariant
            n == response@.len(),
            n >= 4,
            forall|j: int| 0 <= j < i ==> !#[trigger] blank_line_at(response@, j),
        decreases n - i,
    {
        if response[i] == 13 && response[i + 1] == 10 && response[i + 2] == 13 && response[i + 3]
            == 10 {
            return Some(i + 4);
        }
        i = i + 1;
    }
    None
}

} // verus!
