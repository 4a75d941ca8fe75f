use vstd::prelude::*;

verus! {

/// The two media on either side of one intersection of a ray.
///
/// Each side names the position, in the list of intersections, of the
/// intersection at which the innermost enclosing shape was entered; `None`
/// stands for vacuum.
#[derive(Debug, Clone, Copy, PartialEq, Eq, Structural)]
pub struct Boundary {
    /// The medium the ray is leaving (the source of `n1`).
    pub leaving: Option<usize>,
    /// The medium the ray is entering (the source of `n2`).
    pub entering: Option<usize>,
}

/// Index, in `enclosing`, of the first entry whose shape has handle `h`,
/// or -1 when no entry has it.
pub open spec fn first_with(enclosing: Seq<usize>, handles: Seq<u32>, h: u32) -> int
    decreases enclosing.len(),
{
    if enclosing.len() == 0 {
        -1
    } else if handles[enclosing[0] as int] == h {
        0
    } else {
        let j = first_with(enclosing.drop_first(), handles, h);
        if j < 0 {
            -1
        } else {
            j + 1
        }
    }
}

/// One step of the walk: crossing intersection `k` leaves its shape if the
/// ray is inside it, and enters it otherwise.
pub open spec fn cross(enclosing: Seq<usize>, handles: Seq<u32>, k: int) -> Seq<usize> {
    let j = first_with(enclosing, handles, handles[k]);
    if j >= 0 {
        enclosing.remove(j)
    } else {
        enclosing.push(k as usize)
    }
}

/// The shapes enclosing the ray after it has crossed the first `n`
/// intersections (given by the handles of their shapes, in ascending `t`),
/// each given by the position at which it was entered, innermost last.
pub open spec fn enclosing_after(handles: Seq<u32>, n: nat) -> Seq<usize>
    decreases n,
{
    if n == 0 {
        seq![]
    } else {
        cross(enclosing_after(handles, (n - 1) as nat), handles, n - 1)
    }
}

/// The innermost of the enclosing shapes, if any.
pub open spec fn innermost(enclosing: Seq<usize>) -> Option<usize> {
    if enclosing.len() == 0 {
        None
    } else {
        Some(enclosing.last())
    }
}

/// The media on either side of intersection `hit`.
pub open spec fn boundary_at(handles: Seq<u32>, hit: nat) -> Boundary {
    Boundary {
        leaving: innermost(enclosing_after(handles, hit)),
        entering: innermost(enclosing_after(handles, hit + 1)),
    }
}

proof fn lemma_first_with_none(enclosing: Seq<usize>, handles: Seq<u32>, h: u32)
    requires
        forall|i: int|
            0 <= i < enclosing.len() ==> #[trigger] handles[enclosing[i] as int] != h,
    ensures
        first_with(enclosing, handles, h) == -1,
    decreases enclosing.len(),
{
    if enclosing.len() > 0 {
        let rest = enclosing.drop_first();
        assert forall|i: int| 0 <= i < rest.len() implies #[trigger] handles[rest[i] as int]
            != h by {
            assert(rest[i] == enclosing[i + 1]);
        }
        lemma_first_with_none(rest, handles, h);
    }
}

proof fn lemma_first_with_found(enclosing: Seq<usize>, handles: Seq<u32>, h: u32, j: int)
    requires
        0 <= j < enclosing.len(),
        handles[enclosing[j] as int] == h,
        forall|i: int| 0 <= i < j ==> #[trigger] handles[enclosing[i] as int] != h,
    ensures
        first_with(enclosing, handles, h) == j,
    decreases enclosing.len(),
{
    if j > 0 {
        let rest = enclosing.drop_first();
        assert forall|i: int| 0 <= i < j - 1 implies #[trigger] handles[rest[i] as int] != h by {
            assert(rest[i] == enclosing[i + 1]);
        }
        lemma_first_with_found(rest, handles, h, j - 1);
    }
}

proof fn lemma_first_with_bounds(enclosing: Seq<usize>, handles: Seq<u32>, h: u32)
    ensures
        -1 <= first_with(enclosing, handles, h) < enclosing.len(),
    decreases enclosing.len(),
{
    if enclosing.len() > 0 {
        lemma_first_with_bounds(enclosing.drop_first(), handles, h);
    }
}

/// Every shape enclosing the ray after `n` crossings was entered at one of them.
proof fn lemma_enclosing_entered_before(handles: Seq<u32>, n: nat)
    requires
        n <= handles.len(),
    ensures
        forall|i: int|
            0 <= i < enclosing_after(handles, n).len() ==> #[trigger] enclosing_after(
                handles,
                n,
            )[i] < n,
    decreases n,
{
    if n > 0 {
        let prev = enclosing_after(handles, (n - 1) as nat);
        lemma_enclosing_entered_before(handles, (n - 1) as nat);
        lemma_first_with_bounds(prev, handles, handles[n - 1]);
    }
}

/// Finds the media on either side of intersection `hit`, given the handles of
/// the shapes of all intersections along a ray in ascending `t`: the walk
/// keeps the list of shapes the ray is inside, leaving a shape at a second
/// crossing of it and entering it otherwise.
pub fn refraction_boundary(handles: &Vec<u32>, hit: usize) -> (b: Boundary)
    requires
        hit < handles.len(),
    ensures
        b == boundary_at(handles@, hit as nat),
        b.leaving matches Some(p) ==> p < hit,
        b.entering matches Some(p) ==> p <= hit,
{
    let mut enclosing: Vec<usize> = Vec::new();
    let mut leaving: Option<usize> = None;
    let mut k: usize = 0;
    while k <= hit
        invariant
            hit < handles.len(),
            k <= hit + 1,
            enclosing@ == enclosing_after(handles@, k as nat),
            k <= hit ==> leaving == None::<usize>,
            k > hit ==> leaving == innermost(enclosing_after(handles@, hit as nat)),
        decreases hit + 1 - k,
    {
        if k == hit {
            leaving = if enclosing.len() == 0 {
                None
            } else {
                Some(enclosing[enclosing.len() - 1])
            };
        }
        let h = handles[k];
        proof {
            lemma_enclosing_entered_before(handles@, k as nat);
        }
        let mut found: usize = enclosing.len();
        let mut i: usize = 0;
        while i < enclosing.len()
            invariant_except_break
                found == enclosing.len(),
            invariant
                i <= enclosing.len(),
                forall|m: int|
                    0 <= m < enclosing.len() ==> #[trigger] enclosing@[m] < handles.len(),
                forall|m: int| 0 <= m < i ==> #[trigger] handles@[enclosing@[m] as int] != h,
            ensures
                found <= enclosing.len(),
                found < enclosing.len() ==> handles@[enclosing@[found as int] as int] == h,
                forall|m: int| 0 <= m < found ==> #[trigger] handles@[enclosing@[m] as int] != h,
            decreases enclosing.len() - i,
        {
            if handles[enclosing[i]] == h {
                found = i;
                break;
            }
            i = i + 1;
        }
        proof {
            if found < enclosing.len() {
                lemma_first_with_found(enclosing@, handles@, h, found as int);
            } else {
                lemma_first_with_none(enclosing@, handles@, h);
            }
        }
        if found < enclosing.len() {
            enclosing.remove(found);
        } else {
            enclosing.push(k);
        }
        k = k + 1;
    }
    proof {
        lemma_enclosing_entered_before(handles@, hit as nat);
        lemma_enclosing_entered_before(handles@, (hit + 1) as nat);
    }
    Boundary {
        leaving,
        entering: if enclosing.len() == 0 {
            None
        } else {
            Some(enclosing[enclosing.len() - 1])
        },
    }
}

} // verus!
