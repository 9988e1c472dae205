//! Text units and their supporting value types: positions with a packed
//! ordering key, inclusive code-unit ranges, newline encodings, and the
//! [`TextNode`] unit itself together with its identity provider and cursor.

use vstd::prelude::*;
use vstd::slice::slice_subrange;
use crate::buffer::Boundary;
use crate::cursor::Cursor;

verus! {

/// The code unit every line terminator ends with.
pub const LINE_FEED: u16 = 10;

/// Largest column value that survives [`Position::clamp`] and the packed key
/// of [`Position::hash`] unchanged.
pub const MAX_COLUMN: usize = 255;

/// The line and column values of a spot within a buffer. These values are
/// analogous to a pair of x and y coordinates on a 2d grid.
#[derive(Clone, Copy, Debug)]
pub struct Position {
    pub line: usize,
    pub column: usize,
}

/// The packed 32-bit key that equality and ordering of positions go by: the
/// line value in the upper 24 bits, the column value masked to its low 8 bits
/// below. Columns that agree modulo 256 therefore collapse to one key; this
/// compression is deliberate and bounded by [`MAX_COLUMN`].
pub open spec fn position_key(p: Position) -> u32 {
    ((p.line << 24) | (p.column & 255)) as u32
}

impl Position {
    /// Limits the column of the given position to [`MAX_COLUMN`]; the line is
    /// kept as it is. Callers must invoke this themselves: construction does
    /// not apply it.
    pub fn clamp(p: Self) -> (r: Self)
        ensures
            r.line == p.line,
            r.column == if p.column <= MAX_COLUMN { p.column } else { MAX_COLUMN as usize },
    {
        Self {
            line: p.line,
            column: if p.column <= MAX_COLUMN { p.column } else { MAX_COLUMN },
        }
    }

    /// The packed key described by [`position_key`]. Lines above 2^8 - 1 and
    /// columns above [`MAX_COLUMN`] lose their upper bits here.
    pub fn hash(&self) -> (r: u32)
        ensures
            r == position_key(*self),
    {
        ((self.line << 24) | (self.column & 255)) as u32
    }

    /// Componentwise displacement by a (line delta, column delta) pair.
    pub fn add(self, rhs: (usize, usize)) -> (r: Self)
        requires
            self.line + rhs.0 <= usize::MAX,
            self.column + rhs.1 <= usize::MAX,
        ensures
            r.line == self.line + rhs.0,
            r.column == self.column + rhs.1,
    {
        Self { line: self.line + rhs.0, column: self.column + rhs.1 }
    }

    /// In-place form of [`Position::add`].
    pub fn add_assign(&mut self, rhs: (usize, usize))
        requires
            old(self).line + rhs.0 <= usize::MAX,
            old(self).column + rhs.1 <= usize::MAX,
        ensures
            final(self).line == old(self).line + rhs.0,
            final(self).column == old(self).column + rhs.1,
    {
        self.line = self.line + rhs.0;
        self.column = self.column + rhs.1;
    }
}

impl PartialEq for Position {
    /// Equality goes by the packed key, so it is coarser than field equality:
    /// two positions whose columns agree on the low 8 bits compare equal.
    fn eq(&self, other: &Self) -> (r: bool) {
        self.hash() == other.hash()
    }
}

impl vstd::std_specs::cmp::PartialEqSpecImpl for Position {
    open spec fn obeys_eq_spec() -> bool {
        true
    }

    open spec fn eq_spec(&self, other: &Self) -> bool {
        position_key(*self) == position_key(*other)
    }
}

impl PartialOrd for Position {
    /// Ordering goes by the packed key, like equality.
    fn partial_cmp(&self, other: &Self) -> (r: Option<core::cmp::Ordering>) {
        let a = self.hash();
        let b = other.hash();
        if a < b {
            Some(core::cmp::Ordering::Less)
        } else if a == b {
            Some(core::cmp::Ordering::Equal)
        } else {
            Some(core::cmp::Ordering::Greater)
        }
    }
}

impl vstd::std_specs::cmp::PartialOrdSpecImpl for Position {
    open spec fn obeys_partial_cmp_spec() -> bool {
        true
    }

    open spec fn partial_cmp_spec(&self, other: &Self) -> Option<core::cmp::Ordering> {
        if position_key(*self) < position_key(*other) {
            Some(core::cmp::Ordering::Less)
        } else if position_key(*self) == position_key(*other) {
            Some(core::cmp::Ordering::Equal)
        } else {
            Some(core::cmp::Ordering::Greater)
        }
    }
}

impl Default for Position {
    fn default() -> (r: Self)
        ensures
            r.line == 0,
            r.column == 0,
    {
        Self { line: 0, column: 0 }
    }
}

impl From<(usize, usize)> for Position {
    fn from(value: (usize, usize)) -> (r: Self) {
        Self { line: value.0, column: value.1 }
    }
}

impl vstd::std_specs::convert::FromSpecImpl<(usize, usize)> for Position {
    open spec fn obeys_from_spec() -> bool {
        true
    }

    open spec fn from_spec(value: (usize, usize)) -> Self {
        Position { line: value.0, column: value.1 }
    }
}

/// The key of a position never sees more of the column than its low 8 bits:
/// masking the column beforehand leaves the key unchanged. This is why
/// key-based equality of positions is not injective on the column field.
pub proof fn lemma_key_masks_column(line: usize, column: usize)
    ensures
        position_key(Position { line, column }) == position_key(
            Position { line, column: column & 255 },
        ),
{
    assert(((line << 24) | (column & 255)) as u32 == ((line << 24) | ((column & 255) & 255))
        as u32) by (bit_vector);
}

/// A closed range of indices into a unit's code-point storage, inclusive of
/// both ends, delimiting one physical line.
#[derive(Clone, Copy, Debug, PartialEq, Eq, Structural)]
pub struct TextRange {
    pub start: usize,
    pub end: usize,
}

impl TextRange {
    /// The total amount of units this range covers, counting from `start`
    /// exclusive to `end` inclusive. Ranges are only ever built from a
    /// validated scan, so a range with `end < start` is a caller fault.
    pub fn units(&self) -> (r: usize)
        requires
            self.start <= self.end,
        ensures
            r == self.end - self.start,
    {
        self.end - self.start
    }
}

/// Whether a byte, read as the first 256 code points, has the Unicode
/// white-space property. These are the only such values below 256: the five
/// control characters tab through carriage return, the space, the next-line
/// control, and the no-break space.
pub open spec fn is_whitespace_byte(b: u8) -> bool {
    b == 9 || b == 10 || b == 11 || b == 12 || b == 13 || b == 32 || b == 0x85 || b == 0xa0
}

/// True iff every byte of `text`, read as one of the first 256 code points,
/// is white space. An empty input counts as empty.
pub fn assert_utf8_empty(text: &[u8]) -> (r: bool)
    ensures
        r == forall|i: int| 0 <= i < text@.len() ==> is_whitespace_byte(text@[i]),
{
    let mut i: usize = 0;
    while i < text.len()
        invariant
            i <= text@.len(),
            forall|j: int| 0 <= j < i ==> is_whitespace_byte(text@[j]),
        decreases text@.len() - i,
    {
        let b = text[i];
        if !(b == 9 || b == 10 || b == 11 || b == 12 || b == 13 || b == 32 || b == 0x85
            || b == 0xa0) {
            assert(!is_whitespace_byte(text@[i as int]));
            return false;
        }
        i = i + 1;
    }
    true
}

/// A newline convention supported by the text processors set in place.
#[derive(Debug, PartialEq, Eq, Structural)]
pub enum LineEnding {
    Crlf,
    Lf,
}

/// The fixed two-unit encoding of a newline convention. The first slot of the
/// line-feed form is a wildcard sentinel: only its second slot is
/// significant, which is why [`LineEnding::matches_units`] ignores the first
/// slot for that variant.
pub open spec fn line_ending_units(e: LineEnding) -> Seq<u16> {
    match e {
        LineEnding::Crlf => seq![13u16, 10u16],
        LineEnding::Lf => seq![0u16, 10u16],
    }
}

impl LineEnding {
    /// The two-unit encoded form of this newline convention.
    pub fn as_utf16(&self) -> (r: [u16; 2])
        ensures
            r@ == line_ending_units(*self),
    {
        let encoded: [u16; 2] = match self {
            Self::Crlf => [13u16, 10u16],
            Self::Lf => [0u16, 10u16],
        };
        proof {
            assert(encoded@ =~= line_ending_units(*self));
        }
        encoded
    }

    /// Whether a two-unit slice carries this newline convention, checking
    /// only the slots the variant cares about: both for the
    /// carriage-return form, the second alone for the line-feed form.
    pub fn matches_units(&self, other: &[u16]) -> (r: bool)
        requires
            other@.len() >= 2,
        ensures
            r == match *self {
                LineEnding::Crlf => other@[0] == 13u16 && other@[1] == 10u16,
                LineEnding::Lf => other@[1] == 10u16,
            },
    {
        match self {
            Self::Crlf => other[0] == 13u16 && other[1] == 10u16,
            Self::Lf => other[1] == 10u16,
        }
    }

    /// The textual form of this newline convention.
    pub fn text(&self) -> (r: String)
        ensures
            r@ == match *self {
                LineEnding::Crlf => "\r\n"@,
                LineEnding::Lf => "\n"@,
            },
    {
        match self {
            Self::Crlf => "\r\n".to_owned(),
            Self::Lf => "\n".to_owned(),
        }
    }
}

impl Default for LineEnding {
    fn default() -> (r: Self)
        ensures
            r == LineEnding::Crlf,
    {
        Self::Crlf
    }
}

/// The UTF-16 code units a piece of text encodes to.
pub uninterp spec fn utf16_of(text: Seq<char>) -> Seq<u16>;

/// The text a sequence of UTF-16 code units decodes to, or `None` where the
/// units do not form valid UTF-16.
pub uninterp spec fn utf16_decode(units: Seq<u16>) -> Option<Seq<char>>;

/// How many of the first `n` code units equal `unit`.
pub open spec fn count_units(points: Seq<u16>, unit: u16, n: int) -> int
    decreases n,
{
    if n <= 0 {
        0
    } else {
        count_units(points, unit, n - 1) + if points[n - 1] == unit {
            1int
        } else {
            0int
        }
    }
}

/// How many of the first `n` characters equal `c`.
pub open spec fn count_chars(text: Seq<char>, c: char, n: int) -> int
    decreases n,
{
    if n <= 0 {
        0
    } else {
        count_chars(text, c, n - 1) + if text[n - 1] == c {
            1int
        } else {
            0int
        }
    }
}

/// Relies on `str::encode_utf16` (collected into a `Vec`): it yields the
/// UTF-16 encoding of the text, which `String::from_utf16` decodes back to
/// the same text. The line-feed count carries over because `'\n'` encodes to
/// the single unit 10, while every other scalar value encodes either to one
/// unit different from 10 or to a surrogate pair in 0xD800..0xE000.
#[verifier::external_body]
fn encode_utf16_units(text: &str) -> (r: Vec<u16>)
    ensures
        r@ == utf16_of(text@),
        utf16_decode(r@) == Some(text@),
        count_units(r@, LINE_FEED, r@.len() as int) == count_chars(
            text@,
            '\n',
            text@.len() as int,
        ),
        text@.len() == 0 ==> r@.len() == 0,
{
    text.encode_utf16().collect()
}

/// Relies on `String::from_utf16`: it returns the decoded text exactly when
/// the units form valid UTF-16, and an error otherwise.
#[verifier::external_body]
fn decode_utf16_units(units: &[u16]) -> (r: Option<String>)
    ensures
        match r {
            Some(s) => utf16_decode(units@) == Some(s@),
            None => utf16_decode(units@) is None,
        },
{
    match String::from_utf16(units) {
        Ok(s) => Some(s),
        Err(_) => None,
    }
}

/// The line spans found in the first `n` code units, each an inclusive
/// (start, end) pair: a span closes at every unit equal to [`LINE_FEED`],
/// starting just after the previous span's end (or at 0 for the first).
pub open spec fn line_spans(points: Seq<u16>, n: int) -> Seq<(int, int)>
    decreases n,
{
    if n <= 0 {
        Seq::empty()
    } else {
        let prev = line_spans(points, n - 1);
        if points[n - 1] == LINE_FEED {
            let start: int = if prev.len() == 0 {
                0
            } else {
                prev.last().1 + 1
            };
            prev.push((start, n - 1))
        } else {
            prev
        }
    }
}

/// The largest number of units any of the given spans covers, counting each
/// from its start exclusive to its end inclusive; 0 where there is no span.
pub open spec fn max_span_units(spans: Seq<(int, int)>) -> int
    decreases spans.len(),
{
    if spans.len() == 0 {
        0
    } else {
        let rest = max_span_units(spans.drop_last());
        let u = spans.last().1 - spans.last().0;
        if u > rest {
            u
        } else {
            rest
        }
    }
}

/// The (start, end) pairs a sequence of ranges stands for.
pub open spec fn spans_of(ranges: Seq<TextRange>) -> Seq<(int, int)> {
    ranges.map_values(|r: TextRange| (r.start as int, r.end as int))
}

/// The decoded text of the first `n` spans, sliced out of `points`; a span
/// whose units do not decode is silently dropped.
pub open spec fn decoded_lines(points: Seq<u16>, spans: Seq<(int, int)>, n: int) -> Seq<Seq<char>>
    decreases n,
{
    if n <= 0 {
        Seq::empty()
    } else {
        let prev = decoded_lines(points, spans, n - 1);
        match utf16_decode(points.subrange(spans[n - 1].0, spans[n - 1].1 + 1)) {
            Some(s) => prev.push(s),
            None => prev,
        }
    }
}

/// The views of a sequence of strings.
pub open spec fn strs_of(v: Seq<String>) -> Seq<Seq<char>> {
    v.map_values(|s: String| s@)
}

/// The first `n` texts of the sequence, concatenated in order.
pub open spec fn concat_texts(texts: Seq<Seq<char>>, n: int) -> Seq<char>
    decreases n,
{
    if n <= 0 {
        Seq::empty()
    } else {
        concat_texts(texts, n - 1) + texts[n - 1]
    }
}

/// There are exactly as many line spans in a prefix as there are line-feed
/// units in it: every unit equal to [`LINE_FEED`] closes one span and
/// nothing else opens one.
pub proof fn lemma_line_count(points: Seq<u16>, n: int)
    requires
        0 <= n,
    ensures
        line_spans(points, n).len() == count_units(points, LINE_FEED, n),
    decreases n,
{
    if n > 0 {
        lemma_line_count(points, n - 1);
    }
}

/// Every line span is in order: it starts no later than it ends, both ends
/// lie inside the scanned prefix, and consecutive spans are adjacent, each
/// one starting right after its predecessor's end.
pub proof fn lemma_line_spans_wf(points: Seq<u16>, n: int)
    requires
        0 <= n,
    ensures
        forall|k: int|
            0 <= k < line_spans(points, n).len() ==> {
                &&& 0 <= (#[trigger] line_spans(points, n)[k]).0
                &&& line_spans(points, n)[k].0 <= line_spans(points, n)[k].1
                &&& line_spans(points, n)[k].1 < n
            },
        forall|k: int|
            1 <= k < line_spans(points, n).len() ==> (#[trigger] line_spans(points, n)[k]).0
                == line_spans(points, n)[k - 1].1 + 1,
        line_spans(points, n).len() > 0 ==> line_spans(points, n)[0].0 == 0,
    decreases n,
{
    if n > 0 {
        lemma_line_spans_wf(points, n - 1);
    }
}

/// A prefix without a line-feed unit yields no line span at all, and with
/// that an empty extent: no spans, and a largest span width of zero.
pub proof fn lemma_no_line_feed_no_extent(points: Seq<u16>, n: int)
    requires
        0 <= n,
        count_units(points, LINE_FEED, n) == 0,
    ensures
        line_spans(points, n) =~= Seq::<(int, int)>::empty(),
        max_span_units(line_spans(points, n)) == 0,
{
    lemma_line_count(points, n);
}

/// A value used to uniquely identify a node. Fresh values come from an
/// [`IdProvider`], which increments by 1 on each allocation to avoid
/// collision, so ordering of identities reflects creation order, never
/// content.
#[derive(Clone, Copy, Debug, PartialEq, Eq, Structural)]
pub struct NodeId {
    pub(crate) value: usize,
}

/// The issuance state behind node identities: a counter that starts at 1 and
/// grows by 1 per allocation, so no two identities it hands out are ever
/// equal. Callers hold their own provider rather than the process holding a
/// hidden one, and any other issuance strategy may stand behind the same
/// contract.
pub struct IdProvider {
    next: usize,
}

impl IdProvider {
    /// The value the next allocated identity will carry.
    pub closed spec fn spec_next(self) -> usize {
        self.next
    }

    /// A fresh provider whose first identity carries the value 1.
    pub fn new() -> (r: Self)
        ensures
            r.spec_next() == 1,
    {
        Self { next: 1 }
    }
}

impl NodeId {
    /// The raw counter value this identity carries.
    pub open(crate) spec fn spec_value(self) -> usize {
        self.value
    }

    /// The raw counter value, for ordering nodes by creation.
    pub fn value(&self) -> (r: usize)
        ensures
            r == self.spec_value(),
    {
        self.value
    }

    /// Allocates the next identity from the given provider: the identity
    /// carries the provider's current counter value, and the counter moves
    /// up by one, so later allocations always carry strictly larger values.
    pub fn new(ids: &mut IdProvider) -> (r: Self)
        requires
            old(ids).spec_next() < usize::MAX,
        ensures
            r.spec_value() == old(ids).spec_next(),
            final(ids).spec_next() == old(ids).spec_next() + 1,
    {
        let value = ids.next;
        ids.next = ids.next + 1;
        Self { value }
    }
}

/// The smallest unit of representation that text may take the form of. A
/// text node can be either a single character or a block of characters
/// spanning multiple lines; it computes its own line breaks and extent at
/// construction and is immutable thereafter.
#[derive(Debug)]
pub struct TextNode {
    pub(crate) id: NodeId,
    pub(crate) code_points: Vec<u16>,
    pub(crate) line_endings: Vec<TextRange>,
    pub(crate) dimensions: Boundary,
}

/// The concatenation of a node's decoded lines, in range order.
pub open spec fn node_text(node: TextNode) -> Seq<char> {
    let lines = decoded_lines(
        node.code_units(),
        spans_of(node.ranges()),
        node.ranges().len() as int,
    );
    concat_texts(lines, lines.len() as int)
}

impl TextNode {
    /// The counter value of this node's identity.
    pub open(crate) spec fn spec_id(self) -> usize {
        self.id.spec_value()
    }

    /// The code units this node stores.
    pub open(crate) spec fn code_units(self) -> Seq<u16> {
        self.code_points@
    }

    /// The line ranges this node found at construction.
    pub open(crate) spec fn ranges(self) -> Seq<TextRange> {
        self.line_endings@
    }

    /// The extent this node computed at construction.
    pub open(crate) spec fn spec_dimensions(self) -> Boundary {
        self.dimensions
    }

    /// The virtual bounding box this node takes up: anchored at the default
    /// position, as high as its number of lines and as wide as its widest
    /// line range.
    pub fn dimensions(&self) -> (r: Boundary)
        ensures
            r == self.spec_dimensions(),
    {
        self.dimensions
    }

    /// What construction establishes and nothing thereafter disturbs: the
    /// stored ranges are exactly the line spans of the stored units, and the
    /// node's extent is anchored at the default position, as high as the
    /// number of ranges and as wide as the largest range.
    pub open spec fn wf(self) -> bool {
        &&& spans_of(self.ranges()) == line_spans(
            self.code_units(),
            self.code_units().len() as int,
        )
        &&& self.spec_dimensions().origin == (Position { line: 0, column: 0 })
        &&& self.spec_dimensions().width == max_span_units(spans_of(self.ranges()))
        &&& self.spec_dimensions().height == self.ranges().len()
    }

    /// The standardized approach for constructing a new node. The passed-in
    /// text is expected to be delimitered with one consistent newline
    /// sequence, either carriage-return line-feed or line-feed form; the
    /// scan itself only looks for the line-feed unit and closes one range
    /// per occurrence, so the node's height is exactly the number of
    /// line-feed characters in the text and its width the largest number of
    /// units such a range covers. Text without any line feed yields a node
    /// of zero extent regardless of its length. There is no error path.
    pub fn new_delimitered(text: &str, ids: &mut IdProvider) -> (r: TextNode)
        requires
            old(ids).spec_next() < usize::MAX,
        ensures
            r.wf(),
            r.code_units() == utf16_of(text@),
            utf16_decode(r.code_units()) == Some(text@),
            spans_of(r.ranges()) == line_spans(utf16_of(text@), utf16_of(text@).len() as int),
            r.spec_dimensions().origin == (Position { line: 0, column: 0 }),
            r.spec_dimensions().height == count_chars(text@, '\n', text@.len() as int),
            r.spec_dimensions().width == max_span_units(spans_of(r.ranges())),
            r.spec_id() == old(ids).spec_next(),
            final(ids).spec_next() == old(ids).spec_next() + 1,
    {
        let code_points = encode_utf16_units(text);
        let ghost points = code_points@;
        let mut line_endings: Vec<TextRange> = Vec::new();
        let mut width_descriminator: usize = 0;
        let mut i: usize = 0;
        while i < code_points.len()
            invariant
                i <= code_points.len(),
                code_points@ == points,
                spans_of(line_endings@) == line_spans(points, i as int),
                width_descriminator == max_span_units(line_spans(points, i as int)),
                forall|k: int|
                    0 <= k < line_endings@.len() ==> (#[trigger] line_endings@[k]).start
                        <= line_endings@[k].end < i,
            decreases code_points@.len() - i,
        {
            if code_points[i] == LINE_FEED {
                let prev_lf: usize = if line_endings.len() == 0 {
                    0
                } else {
                    line_endings[line_endings.len() - 1].end + 1
                };
                let range = TextRange { start: prev_lf, end: i };
                let width = range.units();
                if width > width_descriminator {
                    width_descriminator = width;
                }
                line_endings.push(range);
                proof {
                    let sp = (prev_lf as int, i as int);
                    assert(spans_of(line_endings@) =~= line_spans(points, i as int).push(sp));
                    assert(line_spans(points, i + 1) =~= line_spans(points, i as int).push(sp));
                    assert(line_spans(points, i + 1).drop_last() =~= line_spans(
                        points,
                        i as int,
                    ));
                }
            } else {
                proof {
                    assert(line_spans(points, i + 1) =~= line_spans(points, i as int));
                }
            }
            i = i + 1;
        }
        let height = line_endings.len();
        let dimensions = Boundary {
            origin: Position { line: 0, column: 0 },
            width: width_descriminator,
            height,
        };
        let id = NodeId::new(ids);
        proof {
            lemma_line_count(points, points.len() as int);
        }
        TextNode { id, code_points, line_endings, dimensions }
    }

    /// Produces the ordered sequence of decoded line strings, slicing the
    /// stored code units per stored range; a range whose units do not form
    /// valid text is silently dropped from the output rather than reported.
    pub fn lines(&self) -> (r: Vec<String>)
        requires
            self.wf(),
        ensures
            strs_of(r@) == decoded_lines(
                self.code_units(),
                spans_of(self.ranges()),
                self.ranges().len() as int,
            ),
    {
        proof {
            lemma_line_spans_wf(self.code_units(), self.code_units().len() as int);
            assert forall|k: int| 0 <= k < self.ranges().len() implies {
                &&& (#[trigger] self.ranges()[k]).start <= self.ranges()[k].end
                &&& self.ranges()[k].end < self.code_units().len()
            } by {
                assert(spans_of(self.ranges())[k] == (
                    self.ranges()[k].start as int,
                    self.ranges()[k].end as int,
                ));
                assert(line_spans(self.code_units(), self.code_units().len() as int)[k]
                    == spans_of(self.ranges())[k]);
            }
        }
        let mut out: Vec<String> = Vec::new();
        let mut i: usize = 0;
        while i < self.line_endings.len()
            invariant
                self.wf(),
                i <= self.line_endings.len(),
                strs_of(out@) == decoded_lines(
                    self.code_units(),
                    spans_of(self.ranges()),
                    i as int,
                ),
                forall|k: int|
                    0 <= k < self.ranges().len() ==> {
                        &&& (#[trigger] self.ranges()[k]).start <= self.ranges()[k].end
                        &&& self.ranges()[k].end < self.code_units().len()
                    },
            decreases self.line_endings@.len() - i,
        {
            let range = self.line_endings[i];
            let total = self.code_points.len();
            proof {
                assert(range == self.ranges()[i as int]);
                assert(range.start <= range.end < total);
            }
            let slice = slice_subrange(self.code_points.as_slice(), range.start, range.end + 1);
            proof {
                assert(spans_of(self.ranges())[i as int] == (range.start as int, range.end as int));
                assert(slice@ =~= self.code_units().subrange(
                    spans_of(self.ranges())[i as int].0,
                    spans_of(self.ranges())[i as int].1 + 1,
                ));
            }
            match decode_utf16_units(slice) {
                Some(s) => {
                    out.push(s);
                    proof {
                        assert(strs_of(out@) =~= decoded_lines(
                            self.code_units(),
                            spans_of(self.ranges()),
                            i + 1,
                        ));
                    }
                },
                None => {
                    proof {
                        assert(strs_of(out@) =~= decoded_lines(
                            self.code_units(),
                            spans_of(self.ranges()),
                            i + 1,
                        ));
                    }
                },
            }
            i = i + 1;
        }
        out
    }
}

impl PartialEq for TextNode {
    /// Nodes compare by identity alone, never by content: two nodes with
    /// identical text are distinct units, told apart by creation order. This
    /// is the one ordering discipline every container of nodes goes by.
    fn eq(&self, other: &Self) -> (r: bool) {
        self.id.value() == other.id.value()
    }
}

impl vstd::std_specs::cmp::PartialEqSpecImpl for TextNode {
    open spec fn obeys_eq_spec() -> bool {
        true
    }

    open spec fn eq_spec(&self, other: &Self) -> bool {
        self.spec_id() == other.spec_id()
    }
}

impl PartialOrd for TextNode {
    /// Nodes order by identity alone, like their equality.
    fn partial_cmp(&self, other: &Self) -> (r: Option<core::cmp::Ordering>) {
        let a = self.id.value();
        let b = other.id.value();
        if a < b {
            Some(core::cmp::Ordering::Less)
        } else if a == b {
            Some(core::cmp::Ordering::Equal)
        } else {
            Some(core::cmp::Ordering::Greater)
        }
    }
}

impl vstd::std_specs::cmp::PartialOrdSpecImpl for TextNode {
    open spec fn obeys_partial_cmp_spec() -> bool {
        true
    }

    open spec fn partial_cmp_spec(&self, other: &Self) -> Option<core::cmp::Ordering> {
        if self.spec_id() < other.spec_id() {
            Some(core::cmp::Ordering::Less)
        } else if self.spec_id() == other.spec_id() {
            Some(core::cmp::Ordering::Equal)
        } else {
            Some(core::cmp::Ordering::Greater)
        }
    }
}

/// Text whose one line-feed unit stands at the very end spans a single
/// range covering all of it, and that range decodes back to the whole
/// text: the round trip from one delimitered line through the scan and
/// back to its decoded lines loses nothing.
pub proof fn lemma_single_line_round_trip(points: Seq<u16>)
    requires
        points.len() > 0,
        points[points.len() - 1] == LINE_FEED,
        count_units(points, LINE_FEED, points.len() as int) == 1,
    ensures
        line_spans(points, points.len() as int) =~= seq![(0int, points.len() - 1)],
        utf16_decode(points) is Some ==> decoded_lines(
            points,
            line_spans(points, points.len() as int),
            1,
        ) =~= seq![utf16_decode(points).unwrap()],
{
    let n = points.len() as int;
    lemma_line_count(points, n - 1);
    assert(count_units(points, LINE_FEED, n - 1) == 0);
    lemma_no_line_feed_no_extent(points, n - 1);
    assert(line_spans(points, n) =~= seq![(0int, n - 1)]);
    assert(points.subrange(0, (n - 1) + 1) =~= points);
    if utf16_decode(points) is Some {
        let spans = line_spans(points, n);
        let s = utf16_decode(points).unwrap();
        assert(spans[0] == (0int, n - 1));
        assert(utf16_decode(points.subrange(spans[0].0, spans[0].1 + 1)) == Some(s));
        assert(decoded_lines(points, spans, 0) =~= Seq::<Seq<char>>::empty());
        assert(decoded_lines(points, spans, 1) =~= seq![s]);
    }
}

/// A non-owning navigator over one node's code-unit storage. The node must
/// outlive the cursor; the cursor never mutates the node, only its own
/// current position.
pub struct TextCursor<'node> {
    position: Position,
    node: &'node TextNode,
}

impl<'node> TextCursor<'node> {
    /// The coordinate this cursor currently stands at.
    pub closed spec fn spec_position(self) -> Position {
        self.position
    }

    /// The node this cursor navigates over.
    pub closed spec fn spec_node(self) -> TextNode {
        *self.node
    }

    /// A cursor over the given node, standing at the default position.
    pub fn new(node: &'node TextNode) -> (r: TextCursor<'node>)
        ensures
            r.spec_position() == (Position { line: 0, column: 0 }),
            r.spec_node() == *node,
    {
        Self { position: Position::default(), node }
    }
}

impl<'node> Cursor for TextCursor<'node> {
    type Value = &'node [u16];

    /// A seek slices the stored units from the current position's column up
    /// to (exclusive) the target's column; the line component is accepted
    /// but takes no part. It succeeds exactly when that slice is in order:
    /// no seek backward past the current column, none beyond the storage.
    /// On success the cursor stands at the target; on failure it is left
    /// unchanged and reports `None` rather than faulting.
    open spec fn seek_spec(
        pre: Self,
        post: Self,
        to: Position,
        r: Option<&'node [u16]>,
    ) -> bool {
        let src = pre.spec_position().column;
        if src <= to.column && to.column <= pre.spec_node().code_units().len() {
            &&& r matches Some(s) && s@ == pre.spec_node().code_units().subrange(
                src as int,
                to.column as int,
            )
            &&& post.spec_position() == to
            &&& post.spec_node() == pre.spec_node()
        } else {
            &&& r is None
            &&& post == pre
        }
    }

    open spec fn position_spec(&self) -> Position {
        self.spec_position()
    }

    fn seek(&mut self, to: &Position) -> (r: Option<&'node [u16]>) {
        let src = self.position.column;
        let node: &'node TextNode = self.node;
        if src <= to.column && to.column <= node.code_points.len() {
            let slice: &'node [u16] = slice_subrange(node.code_points.as_slice(), src, to.column);
            self.position = *to;
            Some(slice)
        } else {
            None
        }
    }

    fn position(&self) -> (r: &Position) {
        &self.position
    }
}

} // verus!
