use vstd::prelude::*;

verus! {

/// End offsets of the lines that close with a `'\n'` among the first `n` bytes
/// of `content`: one entry `p + 1` for each newline at index `p < n`.
pub open spec fn newline_ends(content: Seq<u8>, n: nat) -> Seq<int>
    decreases n,
{
    if n == 0 {
        Seq::empty()
    } else {
        let prev = newline_ends(content, (n - 1) as nat);
        if content[n - 1] == 10u8 {
            prev.push(n as int)
        } else {
            prev
        }
    }
}

/// Cumulative end offsets of the lines of `content`: the running sum of the
/// line lengths, terminators included. Each `'\n'` at index `p` closes a line
/// at `p + 1`, and a last line without one ends at the content's length.
pub open spec fn line_ends(content: Seq<u8>) -> Seq<int> {
    let ends = newline_ends(content, content.len());
    if content.len() > 0 && content[content.len() - 1] != 10u8 {
        ends.push(content.len() as int)
    } else {
        ends
    }
}

pub open spec fn as_ints(s: Seq<usize>) -> Seq<int> {
    s.map_values(|x: usize| x as int)
}

/// End offset of the line before line `k` (0-based), 0 for the first line.
pub open spec fn previous_end(ends: Seq<int>, k: int) -> int {
    if k == 0 {
        0
    } else {
        ends[k - 1]
    }
}

/// Line ends that are positive and increase strictly.
pub open spec fn ends_wf(ends: Seq<int>) -> bool {
    &&& forall|i: int, j: int| 0 <= i < j < ends.len() ==> ends[i] < ends[j]
    &&& forall|i: int| 0 <= i < ends.len() ==> 0 < #[trigger] ends[i]
}

/// How many of the line ends are at or below `pos`.
pub open spec fn ends_not_above(ends: Seq<int>, pos: int) -> nat
    decreases ends.len(),
{
    if ends.len() == 0 {
        0
    } else {
        ends_not_above(ends.drop_last(), pos) + if ends.last() <= pos {
            1nat
        } else {
            0nat
        }
    }
}

/// Where byte offset `pos` lands: line `1 + k`, where `k` line ends are at or
/// below it, and the column `pos - previous_end + 1`; `None` where no line end
/// lies above it.
pub open spec fn locate(ends: Seq<int>, pos: int) -> Option<(int, int)> {
    let k = ends_not_above(ends, pos) as int;
    if k < ends.len() {
        Some((k + 1, pos - previous_end(ends, k) + 1))
    } else {
        None
    }
}

proof fn lemma_newline_ends_bounds(content: Seq<u8>, n: nat)
    requires
        n <= content.len(),
    ensures
        forall|i: int, j: int|
            0 <= i < j < newline_ends(content, n).len() ==> newline_ends(content, n)[i]
                < newline_ends(content, n)[j],
        forall|i: int|
            0 <= i < newline_ends(content, n).len() ==> 0 < #[trigger] newline_ends(content, n)[i]
                <= n,
    decreases n,
{
    if n > 0 {
        let m = (n - 1) as nat;
        lemma_newline_ends_bounds(content, m);
        let prev = newline_ends(content, m);
        let cur = newline_ends(content, n);
        if content[n - 1] == 10u8 {
            assert(cur == prev.push(n as int));
            assert forall|i: int| 0 <= i < cur.len() implies 0 < #[trigger] cur[i] <= n by {
                if i < prev.len() {
                    assert(cur[i] == prev[i]);
                }
            }
            assert forall|i: int, j: int| 0 <= i < j < cur.len() implies cur[i] < cur[j] by {
                assert(cur[i] == prev[i]);
            }
        }
    }
}

/// The line ends of any content are positive and increase strictly, and the
/// last one is the content's length.
pub proof fn lemma_line_ends_wf(content: Seq<u8>)
    ensures
        ends_wf(line_ends(content)),
        content.len() == 0 ==> line_ends(content).len() == 0,
        content.len() > 0 ==> line_ends(content).len() > 0 && line_ends(content).last()
            == content.len(),
{
    let n = content.len();
    if n > 0 && content[n - 1] != 10u8 {
        let m = (n - 1) as nat;
        lemma_newline_ends_bounds(content, m);
        assert(newline_ends(content, n) == newline_ends(content, m));
        let prev = newline_ends(content, m);
        let cur = line_ends(content);
        assert(cur == prev.push(n as int));
        assert forall|i: int, j: int| 0 <= i < j < cur.len() implies cur[i] < cur[j] by {
            assert(cur[i] == prev[i]);
        }
        assert forall|i: int| 0 <= i < cur.len() implies 0 < #[trigger] cur[i] by {
            if i < prev.len() {
                assert(cur[i] == prev[i]);
            }
        }
    } else {
        lemma_newline_ends_bounds(content, n);
    }
}

/// Scans `content` once and gives the cumulative end offset of each line.
pub fn compute_line_info(content: &[u8]) -> (info: Vec<usize>)
    ensures
        as_ints(info@) == line_ends(content@),
        ends_wf(as_ints(info@)),
        content@.len() == 0 ==> info@.len() == 0,
        content@.len() > 0 ==> info@.len() > 0 && info@.last() == content@.len(),
{
    let mut info: Vec<usize> = Vec::new();
    let n = content.len();
    let mut i: usize = 0;
    while i < n
        invariant
            n == content@.len(),
            i <= n,
            as_ints(info@) == newline_ends(content@, i as nat),
        decreases n - i,
    {
        if content[i] == 10u8 {
            info.push(i + 1);
        }
        proof {
            assert(as_ints(info@) =~= newline_ends(content@, (i + 1) as nat));
        }
        i = i + 1;
    }
    if n > 0 && content[n - 1] != 10u8 {
        info.push(n);
    }
    proof {
        assert(as_ints(info@) =~= line_ends(content@));
        lemma_line_ends_wf(content@);
        if n > 0 {
            assert(as_ints(info@)[info@.len() - 1] == info@.last() as int);
        }
    }
    info
}

/// For increasing line ends, the ends at or below `pos` are a prefix, and the
/// end just after that prefix lies above `pos`.
proof fn lemma_not_above_shape(ends: Seq<int>, pos: int)
    requires
        ends_wf(ends),
    ensures
        ends_not_above(ends, pos) <= ends.len(),
        forall|j: int| 0 <= j < ends_not_above(ends, pos) ==> #[trigger] ends[j] <= pos,
        ends_not_above(ends, pos) < ends.len() ==> pos < ends[ends_not_above(ends, pos) as int],
    decreases ends.len(),
{
    if ends.len() > 0 {
        let d = ends.drop_last();
        assert(ends_wf(d));
        lemma_not_above_shape(d, pos);
        let c = ends_not_above(d, pos);
        if ends.last() <= pos {
            if c < d.len() {
                assert(ends[c as int] < ends[ends.len() - 1]);
            }
            assert forall|j: int| 0 <= j < ends.len() implies #[trigger] ends[j] <= pos by {
                if j < d.len() {
                    assert(ends[j] == d[j]);
                }
            }
        } else {
            assert forall|j: int| 0 <= j < c implies #[trigger] ends[j] <= pos by {
                assert(ends[j] == d[j]);
            }
        }
    }
}

/// The number of line ends at or below `pos` is the `k` for which the first
/// `k` ends are at or below it and the next one is above it.
proof fn lemma_not_above_is(ends: Seq<int>, pos: int, k: int)
    requires
        ends_wf(ends),
        0 <= k <= ends.len(),
        forall|j: int| 0 <= j < k ==> #[trigger] ends[j] <= pos,
        k < ends.len() ==> pos < ends[k],
    ensures
        ends_not_above(ends, pos) == k,
{
    lemma_not_above_shape(ends, pos);
    let c = ends_not_above(ends, pos) as int;
    if c < k {
        assert(ends[c] <= pos);
    } else if k < c {
        assert(ends[k] <= pos);
    }
}

/// Resolves `pos` against the line ends of one file: the 1-based line and
/// column, or `None` when no line end lies above `pos`.
pub fn get_line_column(ends: &Vec<usize>, pos: usize) -> (r: Option<(usize, usize)>)
    requires
        ends_wf(as_ints(ends@)),
    ensures
        match r {
            Some((line, column)) => locate(as_ints(ends@), pos as int) == Some(
                (line as int, column as int),
            ),
            None => locate(as_ints(ends@), pos as int) is None,
        },
{
    let ghost e = as_ints(ends@);
    let mut k: usize = 0;
    let mut last: usize = 0;
    while k < ends.len()
        invariant
            e == as_ints(ends@),
            ends_wf(e),
            k <= ends@.len(),
            last == previous_end(e, k as int),
            last <= pos,
            forall|j: int| 0 <= j < k ==> #[trigger] e[j] <= pos,
        decreases ends@.len() - k,
    {
        assert(e[k as int] == ends@[k as int] as int);
        if pos < ends[k] {
            proof {
                lemma_not_above_is(e, pos as int, k as int);
            }
            return Some((k + 1, pos - last + 1));
        }
        last = ends[k];
        k = k + 1;
    }
    proof {
        lemma_not_above_is(e, pos as int, k as int);
    }
    None
}

/// Round trip: every byte offset of a file's content resolves to a line and a
/// column from which the offset is rebuilt as the previous line's end plus the
/// column minus one, and the offset lies inside that line.
pub proof fn lemma_resolve_round_trip(content: Seq<u8>, pos: int)
    requires
        0 <= pos < content.len(),
    ensures
        locate(line_ends(content), pos) matches Some((line, column)) && 1 <= line
            <= line_ends(content).len() && 1 <= column && previous_end(
            line_ends(content),
            line - 1,
        ) + column - 1 == pos && pos < line_ends(content)[line - 1],
{
    lemma_line_ends_wf(content);
    let ends = line_ends(content);
    lemma_not_above_shape(ends, pos);
    let k = ends_not_above(ends, pos) as int;
    if k == ends.len() {
        assert(ends[ends.len() - 1] <= pos);
    }
    if k > 0 {
        assert(ends[k - 1] <= pos);
    }
}

/// An offset equal to a line end is the first byte of the next line: it
/// resolves to that line, column 1; at the last line end it is past the file.
pub proof fn lemma_resolve_at_line_end(ends: Seq<int>, k: int)
    requires
        ends_wf(ends),
        0 <= k < ends.len(),
    ensures
        k + 1 < ends.len() ==> locate(ends, ends[k]) == Some((k + 2, 1int)),
        k + 1 == ends.len() ==> locate(ends, ends[k]) is None,
{
    assert forall|j: int| 0 <= j < k + 1 implies #[trigger] ends[j] <= ends[k] by {
        if j < k {
            assert(ends[j] < ends[k]);
        }
    }
    if k + 1 < ends.len() {
        assert(ends[k] < ends[k + 1]);
    }
    lemma_not_above_is(ends, ends[k], k + 1);
}

/// Why a position could not be resolved.
#[derive(Clone, Copy, Debug, PartialEq, Eq, Structural)]
pub enum PositionError {
    /// The file was never recorded.
    FileNotIndexed,
    /// The offset lies past every line end of the file.
    PositionNotFound,
}

/// The line ends of one recorded file.
pub struct IndexedFile {
    pub name: String,
    pub ends: Vec<usize>,
}

/// Line ends of every file read so far, keyed by file name.
pub struct PositionIndex {
    files: Vec<IndexedFile>,
}

/// The line ends recorded last under `name` among `files`.
pub open spec fn lookup(files: Seq<(Seq<char>, Seq<int>)>, name: Seq<char>) -> Option<Seq<int>>
    decreases files.len(),
{
    if files.len() == 0 {
        None
    } else if files.last().0 == name {
        Some(files.last().1)
    } else {
        lookup(files.drop_last(), name)
    }
}

impl PositionIndex {
    pub closed spec fn records(&self) -> Seq<(Seq<char>, Seq<int>)> {
        self.files@.map_values(|f: IndexedFile| (f.name@, as_ints(f.ends@)))
    }

    /// The line ends of `name`, if it was recorded.
    pub open spec fn entry(&self, name: Seq<char>) -> Option<Seq<int>> {
        lookup(self.records(), name)
    }

    pub closed spec fn wf(&self) -> bool {
        forall|i: int| 0 <= i < self.files@.len() ==> ends_wf(as_ints(#[trigger] self.files@[i].ends@))
    }

    pub fn new() -> (r: PositionIndex)
        ensures
            r.wf(),
            forall|name: Seq<char>| r.entry(name) is None,
    {
        PositionIndex { files: Vec::new() }
    }

    /// Records the line ends of `content` under `name`, replacing any earlier
    /// record of that name.
    pub fn record(&mut self, name: String, content: &[u8])
        requires
            old(self).wf(),
        ensures
            final(self).wf(),
            final(self).entry(name@) == Some(line_ends(content@)),
            forall|other: Seq<char>|
                other != name@ ==> final(self).entry(other) == old(self).entry(other),
    {
        let ends = compute_line_info(content);
        let ghost before = self.records();
        self.files.push(IndexedFile { name, ends });
        proof {
            assert(self.records().drop_last() =~= before);
        }
    }

    /// The 1-based line and column of byte `pos` in file `name`.
    pub fn resolve(&self, name: &String, pos: usize) -> (r: Result<(usize, usize), PositionError>)
        requires
            self.wf(),
        ensures
            match self.entry(name@) {
                None => r == Err::<(usize, usize), PositionError>(PositionError::FileNotIndexed),
                Some(ends) => match locate(ends, pos as int) {
                    None => r == Err::<(usize, usize), PositionError>(
                        PositionError::PositionNotFound,
                    ),
                    Some((line, column)) => r matches Ok((l, c)) && l == line && c == column,
                },
            },
    {
        let mut i: usize = self.files.len();
        proof {
            assert(self.records().take(i as int) =~= self.records());
        }
        while i > 0
            invariant
                i <= self.files@.len(),
                self.wf(),
                self.entry(name@) == lookup(self.records().take(i as int), name@),
            decreases i,
        {
            let f = &self.files[i - 1];
            proof {
                assert(self.records().take(i as int).drop_last() =~= self.records().take(i - 1));
            }
            if f.name == *name {
                return match get_line_column(&f.ends, pos) {
                    Some(lc) => Ok(lc),
                    None => Err(PositionError::PositionNotFound),
                };
            }
            i = i - 1;
        }
        Err(PositionError::FileNotIndexed)
    }
}

} // verus!
