//! Foundation types: file identifiers, interned-name handles and positions.
use vstd::prelude::*;
use vstd::string::StringSliceAdditionalSpecFns;

verus! {

/// A lightweight handle that identifies a source file.
#[derive(Copy, Clone, PartialEq, Eq, Hash, PartialOrd, Ord, Debug, Structural)]
pub struct FileId(pub u32);

impl FileId {
    /// Creates a file identifier from a raw index.
    pub fn new(id: u32) -> (r: FileId)
        ensures
            r.0 == id,
    {
        FileId(id)
    }

    /// The raw index.
    pub fn index(self) -> (r: u32)
        ensures
            r == self.0,
    {
        self.0
    }
}

/// A handle to an interned identifier string.
#[derive(Copy, Clone, PartialEq, Eq, Hash, PartialOrd, Ord, Debug, Structural)]
pub struct Name(u32);

impl Name {
    /// The raw index, as a spec value.
    pub closed spec fn raw(self) -> u32 {
        self.0
    }

    /// Creates a name handle from a raw index.
    pub(crate) fn from_raw(index: u32) -> (r: Name)
        ensures
            r.raw() == index,
    {
        Name(index)
    }

    /// The raw index.
    pub fn index(self) -> (r: u32)
        ensures
            r == self.raw(),
    {
        self.0
    }
}

/// The decimal digits of `n`, most significant first.
pub open spec fn decimal(n: nat) -> Seq<char>
    decreases n,
{
    if n < 10 {
        seq![digit_char(n)]
    } else {
        decimal(n / 10).push(digit_char(n % 10))
    }
}

/// The character of a decimal digit.
pub open spec fn digit_char(d: nat) -> char {
    if d == 0 { '0' } else if d == 1 { '1' } else if d == 2 { '2' } else if d == 3 { '3' }
    else if d == 4 { '4' } else if d == 5 { '5' } else if d == 6 { '6' } else if d == 7 { '7' }
    else if d == 8 { '8' } else { '9' }
}

fn digit_str(d: u64) -> (r: &'static str)
    requires
        d < 10,
    ensures
        r@ == seq![digit_char(d as nat)],
{
    proof {
        reveal_strlit("0");
        reveal_strlit("1");
        reveal_strlit("2");
        reveal_strlit("3");
        reveal_strlit("4");
        reveal_strlit("5");
        reveal_strlit("6");
        reveal_strlit("7");
        reveal_strlit("8");
        reveal_strlit("9");
    }
    let r = if d == 0 { "0" } else if d == 1 { "1" } else if d == 2 { "2" } else if d == 3 { "3" }
    else if d == 4 { "4" } else if d == 5 { "5" } else if d == 6 { "6" } else if d == 7 { "7" }
    else if d == 8 { "8" } else { "9" };
    assert(r@ =~= seq![digit_char(d as nat)]);
    r
}

/// Appends the decimal digits of `n` to `out`.
fn append_decimal(out: &mut String, n: u64)
    ensures
        final(out)@ == old(out)@ + decimal(n as nat),
    decreases n,
{
    if n >= 10 {
        append_decimal(out, n / 10);
    }
    out.append(digit_str(n % 10));
    proof {
        if n >= 10 {
            assert(decimal(n as nat) == decimal((n / 10) as nat).push(digit_char((n % 10) as nat)));
        }
    }
    assert(final(out)@ =~= old(out)@ + decimal(n as nat));
}

/// A line and column position, both 0-indexed.
#[derive(Copy, Clone, PartialEq, Eq, Hash, Default, Debug, Structural)]
pub struct LineCol {
    /// 0-indexed line number.
    pub line: u32,
    /// 0-indexed column, in UTF-8 bytes.
    pub col: u32,
}

impl LineCol {
    /// Creates a position from 0-indexed line and column.
    pub fn new(line: u32, col: u32) -> (r: LineCol)
        ensures
            r.line == line,
            r.col == col,
    {
        LineCol { line, col }
    }

    /// Creates a position from a 1-indexed line and column, as shown to users;
    /// a zero saturates to the first line or column.
    pub fn from_one_indexed(line: u32, col: u32) -> (r: LineCol)
        ensures
            r.line == if line == 0 { 0 } else { line - 1 },
            r.col == if col == 0 { 0 } else { col - 1 },
    {
        LineCol { line: line.saturating_sub(1), col: col.saturating_sub(1) }
    }

    /// The 1-indexed line number.
    pub fn line_one_indexed(self) -> (r: u32)
        requires
            self.line < u32::MAX,
        ensures
            r == self.line + 1,
    {
        self.line + 1
    }

    /// The 1-indexed column number.
    pub fn col_one_indexed(self) -> (r: u32)
        requires
            self.col < u32::MAX,
        ensures
            r == self.col + 1,
    {
        self.col + 1
    }
}

impl LineCol {
    /// The position as shown to users: `line:column`, both 1-indexed.
    pub fn display(&self) -> (r: String)
        ensures
            r@ == decimal(self.line as nat + 1) + seq![':'] + decimal(self.col as nat + 1),
    {
        let mut r = String::new();
        append_decimal(&mut r, self.line as u64 + 1);
        proof {
            reveal_strlit(":");
        }
        r.append(":");
        append_decimal(&mut r, self.col as u64 + 1);
        r
    }
}

/// The byte offsets at which the lines of a text start: 0, and one past each
/// newline among the first `n` bytes.
pub open spec fn line_starts(bytes: Seq<u8>, n: int) -> Seq<u32>
    decreases n,
{
    if n <= 0 {
        seq![0u32]
    } else if bytes[n - 1] == 10u8 {
        line_starts(bytes, n - 1).push(n as u32)
    } else {
        line_starts(bytes, n - 1)
    }
}

/// The number of line starts at or before `offset`.
pub open spec fn starts_up_to(starts: Seq<u32>, offset: u32) -> int
    decreases starts.len(),
{
    if starts.len() == 0 {
        0
    } else {
        starts_up_to(starts.drop_last(), offset) + if starts.last() <= offset { 1int } else { 0int }
    }
}

/// Converts between byte offsets and line/column positions.
#[derive(Clone, Debug)]
pub struct LineIndex {
    line_starts: Vec<u32>,
}

impl LineIndex {
    /// The byte offset at which each line starts.
    pub closed spec fn starts(&self) -> Seq<u32> {
        self.line_starts@
    }

    /// Line starts begin at 0 and increase.
    pub closed spec fn wf(&self) -> bool {
        &&& self.line_starts@.len() > 0
        &&& self.line_starts@.len() <= u32::MAX
        &&& self.line_starts@[0] == 0
        &&& forall|a: int, b: int| 0 <= a < b < self.line_starts@.len() ==> self.line_starts@[a] < self.line_starts@[b]
    }

    /// The line index of a text whose length fits in 32 bits.
    pub fn new(text: &str) -> (r: LineIndex)
        requires
            text.spec_bytes().len() < u32::MAX,
        ensures
            r.wf(),
            r.starts() == line_starts(text.spec_bytes(), text.spec_bytes().len() as int),
    {
        let bytes = text.as_bytes();
        let mut starts: Vec<u32> = Vec::new();
        starts.push(0);
        let n = bytes.len();
        let mut k: usize = 0;
        while k < n
            invariant
                n == bytes@.len(),
                bytes@ == text.spec_bytes(),
                n < u32::MAX,
                k <= n,
                starts@ == line_starts(bytes@, k as int),
                starts@.len() > 0,
                starts@.len() <= k + 1,
                starts@[0] == 0,
                forall|a: int, b: int| 0 <= a < b < starts@.len() ==> starts@[a] < starts@[b],
                forall|a: int| 0 <= a < starts@.len() ==> starts@[a] <= k,
            decreases n - k,
        {
            if bytes[k] == 10u8 {
                starts.push((k + 1) as u32);
            }
            k = k + 1;
        }
        LineIndex { line_starts: starts }
    }

    /// The line and column of a byte offset: the last line that starts at or
    /// before it, and the distance from that start.
    pub fn line_col(&self, offset: u32) -> (r: LineCol)
        requires
            self.wf(),
        ensures
            r.line == starts_up_to(self.starts(), offset) - 1,
            r.col == offset - self.starts()[r.line as int],
    {
        let mut count: usize = 0;
        while count < self.line_starts.len() && self.line_starts[count] <= offset
            invariant
                self.wf(),
                count <= self.line_starts@.len(),
                forall|a: int| 0 <= a < count ==> self.line_starts@[a] <= offset,
            decreases self.line_starts@.len() - count,
        {
            count = count + 1;
        }
        proof {
            let st = self.line_starts@;
            assert forall|a: int| count <= a < st.len() implies st[a] > offset by {
                assert(st[count as int] > offset);
                if a > count {
                    assert(st[count as int] < st[a]);
                }
            }
            lemma_starts_up_to(st, offset, count as int);
        }
        let line = count - 1;
        LineCol { line: line as u32, col: offset - self.line_starts[line] }
    }

    /// The byte offset of a line/column position, where the line exists and
    /// the offset fits in 32 bits.
    pub fn offset(&self, line_col: LineCol) -> (r: Option<u32>)
        ensures
            r == if line_col.line < self.starts().len() && self.starts()[line_col.line as int] + line_col.col <= u32::MAX {
                Some((self.starts()[line_col.line as int] + line_col.col) as u32)
            } else {
                None
            },
    {
        let line = line_col.line as usize;
        if line < self.line_starts.len() {
            self.line_starts[line].checked_add(line_col.col)
        } else {
            None
        }
    }

    /// The number of lines.
    pub fn len(&self) -> (r: usize)
        ensures
            r == self.starts().len(),
    {
        self.line_starts.len()
    }

    /// Whether there is no line.
    pub fn is_empty(&self) -> (r: bool)
        ensures
            r == (self.starts().len() == 0),
    {
        self.line_starts.len() == 0
    }
}

/// With starts increasing and exactly the first `c` of them at or before
/// `offset`, `c` is how many there are.
proof fn lemma_starts_up_to(st: Seq<u32>, offset: u32, c: int)
    requires
        0 <= c <= st.len(),
        forall|a: int| 0 <= a < c ==> st[a] <= offset,
        forall|a: int| c <= a < st.len() ==> st[a] > offset,
    ensures
        starts_up_to(st, offset) == c,
    decreases st.len(),
{
    if st.len() > 0 {
        let t = st.drop_last();
        if c == st.len() {
            lemma_starts_up_to(t, offset, c - 1);
        } else {
            lemma_starts_up_to(t, offset, c);
        }
    }
}

} // verus!
