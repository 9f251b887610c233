//! JSON text as Python's `json.dumps` lays it out.

use vstd::prelude::*;

use super::outside::WriteLog;

verus! {

/// What a JSON serializer tells its formatter, in order, while it goes through
/// a value.
pub enum JsonEvent {
    /// A piece of text that is the same in every layout: a literal, a number,
    /// part of a string.
    Text(Seq<u8>),
    /// An array starts.
    BeginArray,
    /// An array ends.
    EndArray,
    /// An item of an array starts; it is the first one or not.
    BeginArrayValue(bool),
    /// An item of an array ends.
    EndArrayValue,
    /// An object starts.
    BeginObject,
    /// An object ends.
    EndObject,
    /// A key of an object starts; it is the first one or not.
    BeginObjectKey(bool),
    /// The value of a key starts.
    BeginObjectValue,
    /// The value of a key ends.
    EndObjectValue,
}

/// Where a formatter is.
pub struct Layout {
    /// Stands between items and between entries.
    pub item_separator: Seq<u8>,
    /// Stands between a key and its value.
    pub key_separator: Seq<u8>,
    /// One level of indentation, if the text is spread over lines.
    pub indent: Option<Seq<u8>>,
    /// The number of containers that are open.
    pub current_indent: int,
    /// The container that ended last, or the open one, has an item.
    pub has_value: bool,
}

/// `n` times the text.
pub open spec fn times(text: Seq<u8>, n: int) -> Seq<u8>
    decreases n,
{
    if n <= 0 {
        seq![]
    } else {
        times(text, n - 1) + text
    }
}

impl Layout {
    /// A line break and the indentation, if the text is spread over lines.
    pub open spec fn line(self) -> Seq<u8> {
        match self.indent {
            Some(indent) => seq![0x0Au8] + times(indent, self.current_indent),
            None => seq![],
        }
    }

    /// The layout after the event.
    pub open spec fn after(self, event: JsonEvent) -> Layout {
        match event {
            JsonEvent::BeginArray | JsonEvent::BeginObject => if self.indent is Some {
                Layout {
                    current_indent: if self.current_indent < usize::MAX {
                        self.current_indent + 1
                    } else {
                        self.current_indent
                    },
                    has_value: false,
                    ..self
                }
            } else {
                self
            },
            JsonEvent::EndArray | JsonEvent::EndObject => if self.indent is Some {
                Layout {
                    current_indent: if self.current_indent > 0 {
                        self.current_indent - 1
                    } else {
                        0
                    },
                    ..self
                }
            } else {
                self
            },
            JsonEvent::EndArrayValue | JsonEvent::EndObjectValue => Layout {
                has_value: true,
                ..self
            },
            _ => self,
        }
    }

    /// The text of the event: separators apply verbatim even where lines are
    /// broken, and an empty container stays `[]` or `{}`.
    pub open spec fn text(self, event: JsonEvent) -> Seq<u8> {
        match event {
            JsonEvent::Text(bytes) => bytes,
            JsonEvent::BeginArray => seq![0x5Bu8],
            JsonEvent::BeginObject => seq![0x7Bu8],
            JsonEvent::EndArray => self.closing(event) + seq![0x5Du8],
            JsonEvent::EndObject => self.closing(event) + seq![0x7Du8],
            JsonEvent::BeginArrayValue(first) | JsonEvent::BeginObjectKey(first) => if first {
                self.line()
            } else {
                self.item_separator + self.line()
            },
            JsonEvent::BeginObjectValue => self.key_separator,
            JsonEvent::EndArrayValue | JsonEvent::EndObjectValue => seq![],
        }
    }

    /// What stands before a closing bracket.
    pub open spec fn closing(self, event: JsonEvent) -> Seq<u8> {
        if self.has_value {
            self.after(event).line()
        } else {
            seq![]
        }
    }

    /// A line break and the indentation, piece by piece as they are written.
    pub open spec fn line_pieces(self) -> Seq<Seq<u8>> {
        match self.indent {
            Some(indent) => seq![seq![0x0Au8]] + Seq::new(
                self.current_indent as nat,
                |i: int| indent,
            ),
            None => seq![],
        }
    }

    /// The text of the event, piece by piece as it is written.
    pub open spec fn pieces(self, event: JsonEvent) -> Seq<Seq<u8>> {
        let closing = if self.has_value {
            self.after(event).line_pieces()
        } else {
            seq![]
        };
        match event {
            JsonEvent::EndArray => closing + seq![seq![0x5Du8]],
            JsonEvent::EndObject => closing + seq![seq![0x7Du8]],
            JsonEvent::BeginArrayValue(first) | JsonEvent::BeginObjectKey(first) => if first {
                self.line_pieces()
            } else {
                seq![self.item_separator] + self.line_pieces()
            },
            JsonEvent::EndArrayValue | JsonEvent::EndObjectValue => seq![],
            _ => seq![self.text(event)],
        }
    }

    /// The text of the events, one after the other.
    pub open spec fn render(self, events: Seq<JsonEvent>) -> Seq<u8>
        decreases events.len(),
    {
        if events.len() == 0 {
            seq![]
        } else {
            self.text(events[0]) + self.after(events[0]).render(events.drop_first())
        }
    }

    /// The layout after the events.
    pub open spec fn after_all(self, events: Seq<JsonEvent>) -> Layout
        decreases events.len(),
    {
        if events.len() == 0 {
            self
        } else {
            self.after(events[0]).after_all(events.drop_first())
        }
    }
}

/// Formatter matching Python's `json.dumps` output, including its indented
/// form: separators apply verbatim even when `indent` is set (so a custom item
/// separator keeps its trailing whitespace before the newline, exactly like
/// Python), and empty containers stay `[]`/`{}`.
pub struct HfJsonFormatter {
    /// Stands between items and between entries.
    pub item_separator: Vec<u8>,
    /// Stands between a key and its value.
    pub key_separator: Vec<u8>,
    /// One level of indentation, if the text is spread over lines.
    pub indent: Option<Vec<u8>>,
    /// The number of containers that are open.
    pub current_indent: usize,
    /// The container that ended last, or the open one, has an item.
    pub has_value: bool,
    /// What writers were handed, and what each of them replied.
    pub log: WriteLog,
}

impl View for HfJsonFormatter {
    type V = Layout;

    open spec fn view(&self) -> Layout {
        Layout {
            item_separator: self.item_separator@,
            key_separator: self.key_separator@,
            indent: match self.indent {
                Some(indent) => Some(indent@),
                None => None,
            },
            current_indent: self.current_indent as int,
            has_value: self.has_value,
        }
    }
}

/// Between the logs, the pieces were handed over one by one, and nothing else: all
/// of them, or up to the first that the writer did not take. The result is its
/// last reply.
pub open spec fn handed(
    before: Seq<(Seq<u8>, std::io::Result<()>)>,
    after: Seq<(Seq<u8>, std::io::Result<()>)>,
    pieces: Seq<Seq<u8>>,
    r: std::io::Result<()>,
) -> bool {
    let n = before.len();
    &&& n <= after.len() <= n + pieces.len()
    &&& forall|i: int| 0 <= i < n ==> #[trigger] after[i] == before[i]
    &&& forall|i: int| n <= i < after.len() ==> (#[trigger] after[i]).0 == pieces[i - n]
    &&& forall|i: int| n <= i < after.len() - 1 ==> (#[trigger] after[i]).1 is Ok
    &&& if r is Ok {
        after.len() == n + pieces.len() && (pieces.len() > 0 ==> after.last().1 is Ok)
    } else {
        after.len() > n && after.last().1 == r
    }
}

/// Pieces that were all taken, and then others.
proof fn lemma_then(
    before: Seq<(Seq<u8>, std::io::Result<()>)>,
    between: Seq<(Seq<u8>, std::io::Result<()>)>,
    after: Seq<(Seq<u8>, std::io::Result<()>)>,
    first: Seq<Seq<u8>>,
    others: Seq<Seq<u8>>,
    r1: std::io::Result<()>,
    r2: std::io::Result<()>,
)
    requires
        handed(before, between, first, r1),
        r1 is Ok,
        handed(between, after, others, r2),
    ensures
        handed(before, after, first + others, r2),
{
}

/// Where a writer failed, nothing more is handed over.
proof fn lemma_failed(
    before: Seq<(Seq<u8>, std::io::Result<()>)>,
    after: Seq<(Seq<u8>, std::io::Result<()>)>,
    first: Seq<Seq<u8>>,
    others: Seq<Seq<u8>>,
    r: std::io::Result<()>,
)
    requires
        handed(before, after, first, r),
        r is Err,
    ensures
        handed(before, after, first + others, r),
{
}

proof fn lemma_one(
    before: Seq<(Seq<u8>, std::io::Result<()>)>,
    piece: Seq<u8>,
    r: std::io::Result<()>,
)
    ensures
        handed(before, before.push((piece, r)), seq![piece], r),
{
}

proof fn lemma_none(before: Seq<(Seq<u8>, std::io::Result<()>)>, r: std::io::Result<()>)
    requires
        r is Ok,
    ensures
        handed(before, before, seq![], r),
{
}

impl HfJsonFormatter {
    /// What writers were handed so far, and what each of them replied.
    pub open spec fn log(self) -> Seq<(Seq<u8>, std::io::Result<()>)> {
        self.log@
    }

    /// A formatter at the start of a text.
    pub fn new(
        item_separator: Vec<u8>,
        key_separator: Vec<u8>,
        indent: Option<Vec<u8>>,
    ) -> (formatter: Self)
        ensures
            formatter.item_separator == item_separator,
            formatter.key_separator == key_separator,
            formatter.indent == indent,
            formatter.current_indent == 0,
            !formatter.has_value,
            formatter.log().len() == 0,
    {
        HfJsonFormatter {
            item_separator,
            key_separator,
            indent,
            current_indent: 0,
            has_value: false,
            log: WriteLog::new(),
        }
    }

    /// Hands the writer a line break and the indentation, if the text is spread
    /// over lines.
    fn write_newline_indent<W>(&mut self, writer: &mut W) -> (r: std::io::Result<()>) where
        W: ?Sized + std::io::Write,

        ensures
            final(self)@ == old(self)@,
            handed(old(self).log(), final(self).log(), old(self)@.line_pieces(), r),
            old(self)@.indent is None ==> &*final(writer) == &*old(writer),
    {
        let ghost start = self.log();
        let ghost layout = self@;
        let ghost pieces = self@.line_pieces();
        if let Some(indent) = &self.indent {
            let line_feed: [u8; 1] = [0x0A];
            let r = self.log.write_all(writer, line_feed.as_slice());
            proof {
                assert(line_feed@ =~= seq![0x0Au8]);
                lemma_one(start, line_feed@, r);
                assert(pieces =~= seq![line_feed@] + pieces.skip(1));
                assert(pieces.take(1) =~= seq![line_feed@]);
            }
            if r.is_err() {
                proof {
                    lemma_failed(start, self.log@, seq![line_feed@], pieces.skip(1), r);
                }
                return r;
            }
            let mut i: usize = 0;
            let ghost mut last = r;
            while i < self.current_indent
                invariant
                    i <= self.current_indent,
                    layout == old(self)@,
                    start == old(self).log(),
                    self@ == layout,
                    self.indent == Some(*indent),
                    pieces == layout.line_pieces(),
                    last is Ok,
                    handed(start, self.log@, pieces.take(i + 1), last),
                decreases self.current_indent - i,
            {
                let ghost before = self.log@;
                let r = self.log.write_all(writer, indent.as_slice());
                proof {
                    lemma_one(before, indent@, r);
                    lemma_then(
                        start,
                        before,
                        self.log@,
                        pieces.take(i + 1),
                        seq![indent@],
                        last,
                        r,
                    );
                    assert(pieces.take(i + 2) =~= pieces.take(i + 1) + seq![indent@]);
                    assert(pieces =~= pieces.take(i + 2) + pieces.skip(i + 2));
                    last = r;
                }
                if r.is_err() {
                    proof {
                        lemma_failed(start, self.log@, pieces.take(i + 2), pieces.skip(i + 2), r);
                    }
                    return r;
                }
                i += 1;
            }
            assert(pieces.take(i + 1) =~= pieces);
            return Ok(());
        }
        proof {
            lemma_none(start, Ok(()));
        }
        Ok(())
    }

    /// A container starts with the bracket `open`.
    fn begin_container<W>(&mut self, writer: &mut W, open: u8) -> (r: std::io::Result<()>) where
        W: ?Sized + std::io::Write,

        ensures
            final(self)@ == old(self)@.after(JsonEvent::BeginArray),
            final(self)@ == old(self)@.after(JsonEvent::BeginObject),
            handed(old(self).log(), final(self).log(), seq![seq![open]], r),
    {
        if self.indent.is_some() {
            if self.current_indent < usize::MAX {
                self.current_indent += 1;
            }
            self.has_value = false;
        }
        let ghost before = self.log();
        let bracket: [u8; 1] = [open];
        let r = self.log.write_all(writer, bracket.as_slice());
        proof {
            assert(bracket@ =~= seq![open]);
            lemma_one(before, seq![open], r);
        }
        r
    }

    /// A container ends with the bracket `close`.
    fn end_container<W>(&mut self, writer: &mut W, close: u8) -> (r: std::io::Result<()>) where
        W: ?Sized + std::io::Write,

        ensures
            final(self)@ == old(self)@.after(JsonEvent::EndArray),
            final(self)@ == old(self)@.after(JsonEvent::EndObject),
            handed(
                old(self).log(),
                final(self).log(),
                (if old(self)@.has_value {
                    final(self)@.line_pieces()
                } else {
                    seq![]
                }) + seq![seq![close]],
                r,
            ),
    {
        let ghost start = self.log();
        let ghost line = if self@.has_value {
            self@.after(JsonEvent::EndArray).line_pieces()
        } else {
            seq![]
        };
        let ghost mut ended: std::io::Result<()> = Ok(());
        proof {
            lemma_none(start, ended);
        }
        if self.indent.is_some() {
            if self.current_indent > 0 {
                self.current_indent -= 1;
            }
            if self.has_value {
                let r = self.write_newline_indent(writer);
                if r.is_err() {
                    proof {
                        lemma_failed(start, self.log(), line, seq![seq![close]], r);
                    }
                    return r;
                }
                proof {
                    ended = r;
                }
            }
        }
        let ghost before = self.log();
        let bracket: [u8; 1] = [close];
        let r = self.log.write_all(writer, bracket.as_slice());
        proof {
            assert(bracket@ =~= seq![close]);
            lemma_one(before, seq![close], r);
            lemma_then(start, before, self.log(), line, seq![seq![close]], ended, r);
        }
        r
    }

    /// An item or an entry starts. Before the first one stands nothing if the
    /// text is not spread over lines: the writer is then left alone.
    fn begin_item<W>(&mut self, writer: &mut W, first: bool) -> (r: std::io::Result<()>) where
        W: ?Sized + std::io::Write,

        ensures
            final(self)@ == old(self)@,
            handed(
                old(self).log(),
                final(self).log(),
                old(self)@.pieces(JsonEvent::BeginArrayValue(first)),
                r,
            ),
            first && old(self)@.indent is None ==> &*final(writer) == &*old(writer),
    {
        if !first {
            let ghost start = self.log();
            let ghost separator = seq![self.item_separator@];
            let ghost line = self@.line_pieces();
            let r = self.log.write_all(writer, self.item_separator.as_slice());
            let ghost between = self.log();
            proof {
                lemma_one(start, self.item_separator@, r);
            }
            if r.is_err() {
                proof {
                    lemma_failed(start, between, separator, line, r);
                }
                return r;
            }
            let r2 = self.write_newline_indent(writer);
            proof {
                lemma_then(start, between, self.log(), separator, line, r, r2);
            }
            return r2;
        }
        self.write_newline_indent(writer)
    }
}

impl serde_json::ser::Formatter for HfJsonFormatter {
    fn begin_array<W>(&mut self, writer: &mut W) -> (r: std::io::Result<()>) where
        W: ?Sized + std::io::Write,

        ensures
            final(self)@ == old(self)@.after(JsonEvent::BeginArray),
            handed(old(self).log(), final(self).log(), old(self)@.pieces(JsonEvent::BeginArray), r),
    {
        self.begin_container(writer, 0x5B)
    }

    fn end_array<W>(&mut self, writer: &mut W) -> (r: std::io::Result<()>) where
        W: ?Sized + std::io::Write,

        ensures
            final(self)@ == old(self)@.after(JsonEvent::EndArray),
            handed(old(self).log(), final(self).log(), old(self)@.pieces(JsonEvent::EndArray), r),
    {
        self.end_container(writer, 0x5D)
    }

    fn begin_object<W>(&mut self, writer: &mut W) -> (r: std::io::Result<()>) where
        W: ?Sized + std::io::Write,

        ensures
            final(self)@ == old(self)@.after(JsonEvent::BeginObject),
            handed(old(self).log(), final(self).log(), old(self)@.pieces(JsonEvent::BeginObject), r),
    {
        self.begin_container(writer, 0x7B)
    }

    fn end_object<W>(&mut self, writer: &mut W) -> (r: std::io::Result<()>) where
        W: ?Sized + std::io::Write,

        ensures
            final(self)@ == old(self)@.after(JsonEvent::EndObject),
            handed(old(self).log(), final(self).log(), old(self)@.pieces(JsonEvent::EndObject), r),
    {
        self.end_container(writer, 0x7D)
    }

    fn begin_array_value<W>(&mut self, writer: &mut W, first: bool) -> (r: std::io::Result<()>) where
        W: ?Sized + std::io::Write,

        ensures
            final(self)@ == old(self)@.after(JsonEvent::BeginArrayValue(first)),
            handed(old(self).log(), final(self).log(), old(self)@.pieces(JsonEvent::BeginArrayValue(first)), r),
            first && old(self)@.indent is None ==> &*final(writer) == &*old(writer),
    {
        self.begin_item(writer, first)
    }

    fn end_array_value<W>(&mut self, writer: &mut W) -> (r: std::io::Result<()>) where
        W: ?Sized + std::io::Write,

        ensures
            final(self)@ == old(self)@.after(JsonEvent::EndArrayValue),
            handed(old(self).log(), final(self).log(), old(self)@.pieces(JsonEvent::EndArrayValue), r),
            &*final(writer) == &*old(writer),
    {
        self.has_value = true;
        proof {
            lemma_none(self.log(), Ok(()));
        }
        Ok(())
    }

    fn begin_object_key<W>(&mut self, writer: &mut W, first: bool) -> (r: std::io::Result<()>) where
        W: ?Sized + std::io::Write,

        ensures
            final(self)@ == old(self)@.after(JsonEvent::BeginObjectKey(first)),
            handed(old(self).log(), final(self).log(), old(self)@.pieces(JsonEvent::BeginObjectKey(first)), r),
            first && old(self)@.indent is None ==> &*final(writer) == &*old(writer),
    {
        self.begin_item(writer, first)
    }

    fn begin_object_value<W>(&mut self, writer: &mut W) -> (r: std::io::Result<()>) where
        W: ?Sized + std::io::Write,

        ensures
            final(self)@ == old(self)@.after(JsonEvent::BeginObjectValue),
            handed(old(self).log(), final(self).log(), old(self)@.pieces(JsonEvent::BeginObjectValue), r),
    {
        let ghost before = self.log();
        let r = self.log.write_all(writer, self.key_separator.as_slice());
        proof {
            lemma_one(before, self.key_separator@, r);
        }
        r
    }

    fn end_object_value<W>(&mut self, writer: &mut W) -> (r: std::io::Result<()>) where
        W: ?Sized + std::io::Write,

        ensures
            final(self)@ == old(self)@.after(JsonEvent::EndObjectValue),
            handed(old(self).log(), final(self).log(), old(self)@.pieces(JsonEvent::EndObjectValue), r),
            &*final(writer) == &*old(writer),
    {
        self.has_value = true;
        proof {
            lemma_none(self.log(), Ok(()));
        }
        Ok(())
    }
}

/// The pieces, one after the other.
pub open spec fn joined(pieces: Seq<Seq<u8>>) -> Seq<u8>
    decreases pieces.len(),
{
    if pieces.len() == 0 {
        seq![]
    } else {
        joined(pieces.drop_last()) + pieces.last()
    }
}

proof fn lemma_joined_add(first: Seq<Seq<u8>>, others: Seq<Seq<u8>>)
    ensures
        joined(first + others) == joined(first) + joined(others),
    decreases others.len(),
{
    if others.len() == 0 {
        assert(first + others =~= first);
    } else {
        lemma_joined_add(first, others.drop_last());
        assert((first + others).drop_last() =~= first + others.drop_last());
    }
}

proof fn lemma_joined_one(piece: Seq<u8>)
    ensures
        joined(seq![piece]) == piece,
{
    reveal_with_fuel(joined, 2);
    assert(seq![piece].drop_last() =~= seq![]);
    assert(joined(seq![piece]) =~= piece);
}

proof fn lemma_joined_times(text: Seq<u8>, n: int)
    requires
        0 <= n,
    ensures
        joined(Seq::new(n as nat, |i: int| text)) == times(text, n),
    decreases n,
{
    if n > 0 {
        lemma_joined_times(text, n - 1);
        assert(Seq::new(n as nat, |i: int| text).drop_last() =~= Seq::new(
            (n - 1) as nat,
            |i: int| text,
        ));
    }
}

proof fn lemma_joined_line(layout: Layout)
    requires
        0 <= layout.current_indent,
    ensures
        joined(layout.line_pieces()) == layout.line(),
{
    if let Some(indent) = layout.indent {
        let levels = Seq::new(layout.current_indent as nat, |i: int| indent);
        lemma_joined_add(seq![seq![0x0Au8]], levels);
        lemma_joined_one(seq![0x0Au8]);
        lemma_joined_times(indent, layout.current_indent);
    }
}

/// The pieces that are written for an event make its text.
pub proof fn law_pieces_make_text(layout: Layout, event: JsonEvent)
    requires
        0 <= layout.current_indent,
    ensures
        joined(layout.pieces(event)) == layout.text(event),
{
    lemma_joined_line(layout);
    lemma_joined_line(layout.after(event));
    lemma_joined_one(layout.text(event));
    lemma_joined_one(layout.item_separator);
    lemma_joined_one(seq![0x5Du8]);
    lemma_joined_one(seq![0x7Du8]);
    lemma_joined_add(seq![layout.item_separator], layout.line_pieces());
    lemma_joined_add(layout.after(event).line_pieces(), seq![seq![0x5Du8]]);
    lemma_joined_add(layout.after(event).line_pieces(), seq![seq![0x7Du8]]);
    lemma_joined_add(seq![], seq![seq![0x5Du8]]);
    lemma_joined_add(seq![], seq![seq![0x7Du8]]);
}

/// The bytes that the entries of a log say were handed over.
pub open spec fn logged(entries: Seq<(Seq<u8>, std::io::Result<()>)>) -> Seq<Seq<u8>> {
    Seq::new(entries.len(), |i: int| entries[i].0)
}

/// Where a writer took all that it was handed for an event, that is exactly the
/// text of the event.
pub proof fn law_event_is_written(
    before: Seq<(Seq<u8>, std::io::Result<()>)>,
    after: Seq<(Seq<u8>, std::io::Result<()>)>,
    layout: Layout,
    event: JsonEvent,
    r: std::io::Result<()>,
)
    requires
        0 <= layout.current_indent,
        handed(before, after, layout.pieces(event), r),
        r is Ok,
    ensures
        joined(logged(after)) == joined(logged(before)) + layout.text(event),
{
    let entries = after.skip(before.len() as int);
    assert(logged(entries) =~= layout.pieces(event));
    assert(after =~= before + entries);
    assert(logged(after) =~= logged(before) + logged(entries));
    lemma_joined_add(logged(before), logged(entries));
    law_pieces_make_text(layout, event);
}

/// The text of events in a row is that of the first ones and then that of the
/// others, from the layout that the first ones leave.
pub proof fn law_render_in_parts(layout: Layout, first: Seq<JsonEvent>, others: Seq<JsonEvent>)
    ensures
        layout.render(first + others) == layout.render(first) + layout.after_all(first).render(
            others,
        ),
        layout.after_all(first + others) == layout.after_all(first).after_all(others),
    decreases first.len(),
{
    if first.len() != 0 {
        let event = first[0];
        law_render_in_parts(layout.after(event), first.drop_first(), others);
        assert((first + others).drop_first() =~= first.drop_first() + others);
    }
}

/// The number of open containers after the events, if `depth` are open before
/// them; none if more are closed than are open.
pub open spec fn depth_after(depth: int, events: Seq<JsonEvent>) -> Option<int>
    decreases events.len(),
{
    if events.len() == 0 {
        Some(depth)
    } else {
        match events[0] {
            JsonEvent::BeginArray | JsonEvent::BeginObject => depth_after(
                depth + 1,
                events.drop_first(),
            ),
            JsonEvent::EndArray | JsonEvent::EndObject => if depth > 0 {
                depth_after(depth - 1, events.drop_first())
            } else {
                None
            },
            _ => depth_after(depth, events.drop_first()),
        }
    }
}

/// The indentation follows the nesting: after events that close what they open,
/// it is what it was before them.
pub proof fn law_indentation_is_nesting(layout: Layout, events: Seq<JsonEvent>)
    requires
        layout.indent is Some,
        0 <= layout.current_indent,
        layout.current_indent + events.len() <= usize::MAX,
        depth_after(layout.current_indent, events) is Some,
    ensures
        layout.after_all(events).current_indent == depth_after(
            layout.current_indent,
            events,
        )->0,
        layout.after_all(events).indent == layout.indent,
    decreases events.len(),
{
    if events.len() > 0 {
        law_indentation_is_nesting(layout.after(events[0]), events.drop_first());
    }
}

/// Empty containers are `[]` and `{}` in every layout.
pub proof fn law_empty_containers(layout: Layout)
    ensures
        layout.render(seq![JsonEvent::BeginArray, JsonEvent::EndArray]) == seq![0x5Bu8, 0x5D],
        layout.render(seq![JsonEvent::BeginObject, JsonEvent::EndObject]) == seq![0x7Bu8, 0x7D],
{
    lemma_two_events(layout, JsonEvent::BeginArray, JsonEvent::EndArray);
    lemma_two_events(layout, JsonEvent::BeginObject, JsonEvent::EndObject);
}

proof fn lemma_two_events(layout: Layout, a: JsonEvent, b: JsonEvent)
    ensures
        layout.render(seq![a, b]) == layout.text(a) + layout.after(a).text(b),
{
    let events = seq![a, b];
    let rest = events.drop_first();
    assert(rest.drop_first() =~= seq![]);
    let l = layout.after(a);
    assert(l.after(b).render(seq![]) =~= seq![]);
    assert(l.render(rest) =~= l.text(b));
}

} // verus!
