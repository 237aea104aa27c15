//! An indenting XML writer that appends its output to a `String`, and the
//! model of what each of its operations writes.
use vstd::prelude::*;
use vstd::arithmetic::mul::lemma_mul_is_distributive_add_other_way;
use crate::text::{spaces, push_spaces, int_decimal, bool_text, i64_decimal, bool_string};
use crate::toml_model::{lemma_value_view, TableView, ValueView, datetime_display, datetime_to_string, TomlTable, TomlValue};

verus! {

broadcast use lemma_value_view;

/// What a writer holds: the text written so far, the tags opened and not yet
/// closed (innermost last), and the number of spaces per level of nesting.
pub ghost struct WriterState {
    pub out: Seq<char>,
    pub tags: Seq<Seq<char>>,
    pub indent: nat,
}

/// The outcome of a writing operation: success, or an error message.
pub type Outcome = Result<(), Seq<char>>;

/// The outcome that an executable result stands for.
pub open spec fn outcome(r: Result<(), &'static str>) -> Outcome {
    match r {
        Ok(_) => Ok(()),
        Err(e) => Err(e@),
    }
}

/// The message of a failed `close_tag`.
pub open spec fn no_open_tags_message() -> Seq<char> {
    "no open tags to close"@
}

/// The message of `write_table` for an array.
pub open spec fn array_message() -> Seq<char> {
    "unexpected array in TOML"@
}

impl WriterState {
    /// The indentation of the next line: one level per open tag.
    pub open spec fn width(self) -> nat {
        self.tags.len() * self.indent
    }

    /// The state after writing one line with the given content at the current
    /// indentation.
    pub open spec fn line(self, content: Seq<char>) -> WriterState {
        WriterState {
            out: self.out + spaces(self.width()) + content + "\n"@,
            tags: self.tags,
            indent: self.indent,
        }
    }

    /// The state after `open_tag(tag)`.
    pub open spec fn opened(self, tag: Seq<char>) -> WriterState {
        let s = self.line("<"@ + tag + ">"@);
        WriterState { out: s.out, tags: s.tags.push(tag), indent: s.indent }
    }

    /// The state after `open_tag_with_attrib(tag, key, value)`.
    pub open spec fn opened_with_attrib(self, tag: Seq<char>, key: Seq<char>, value: Seq<char>) -> WriterState {
        let s = self.line("<"@ + tag + " "@ + key + "=\""@ + value + "\">"@);
        WriterState { out: s.out, tags: s.tags.push(tag), indent: s.indent }
    }

    /// The state after `element(tag, value)`.
    pub open spec fn element(self, tag: Seq<char>, value: Seq<char>) -> WriterState {
        self.line("<"@ + tag + ">"@ + value + "</"@ + tag + ">"@)
    }

    /// The state after closing the innermost open tag: it leaves the list of
    /// open tags and its closing line is written one level up.
    pub open spec fn closed(self) -> WriterState {
        let s = WriterState { out: self.out, tags: self.tags.drop_last(), indent: self.indent };
        s.line("</"@ + self.tags.last() + ">"@)
    }

    /// The state and outcome of `close_tag`.
    pub open spec fn close_step(self) -> (WriterState, Outcome) {
        if self.tags.len() == 0 {
            (self, Err(no_open_tags_message()))
        } else {
            (self.closed(), Ok(()))
        }
    }

    /// The state after closing every open tag, innermost first.
    pub open spec fn all_closed(self) -> WriterState
        decreases self.tags.len(),
    {
        if self.tags.len() == 0 {
            self
        } else {
            self.closed().all_closed()
        }
    }
}

/// The text that `write_table` writes as the content of an element for a
/// scalar value.
pub open spec fn scalar_text(v: ValueView) -> Seq<char> {
    match v {
        ValueView::String(s) => s,
        ValueView::Integer(n) => int_decimal(n as int),
        ValueView::Float(t) => t,
        ValueView::Boolean(b) => bool_text(b),
        ValueView::Datetime(d) => datetime_display(d),
        _ => Seq::empty(),
    }
}

/// The state and outcome of `write_table` on a table with entries `t`: each
/// entry in turn, stopping at the first that fails.
pub open spec fn table_written(ws: WriterState, t: TableView) -> (WriterState, Outcome)
    decreases t,
{
    if t.len() == 0 {
        (ws, Ok(()))
    } else {
        let (ws1, r1) = entry_written(ws, t[0].0, t[0].1);
        if r1 is Err {
            (ws1, r1)
        } else {
            table_written(ws1, t.drop_first())
        }
    }
}

/// The state and outcome of writing one entry of a table: a scalar becomes
/// an element, a table becomes a tag around its own entries, and an array is
/// refused.
pub open spec fn entry_written(ws: WriterState, k: Seq<char>, v: ValueView) -> (WriterState, Outcome)
    decreases v,
{
    match v {
        ValueView::Array(_) => (ws, Err(array_message())),
        ValueView::Table(s) => {
            let (ws1, r1) = table_written(ws.opened(k), s);
            if r1 is Err {
                (ws1, r1)
            } else {
                ws1.close_step()
            }
        },
        _ => (ws.element(k, scalar_text(v)), Ok(())),
    }
}

/// Writing a table that succeeds leaves the open tags and the indentation
/// as they were, and writing only ever appends to the output.
pub proof fn lemma_table_written(ws: WriterState, t: TableView)
    ensures
        ws.out.is_prefix_of(table_written(ws, t).0.out),
        table_written(ws, t).0.indent == ws.indent,
        table_written(ws, t).1 is Ok ==> table_written(ws, t).0.tags == ws.tags,
    decreases t,
{
    if t.len() > 0 {
        lemma_entry_written(ws, t[0].0, t[0].1);
        let (ws1, r1) = entry_written(ws, t[0].0, t[0].1);
        if r1 is Ok {
            lemma_table_written(ws1, t.drop_first());
            lemma_prefix_trans(ws.out, ws1.out, table_written(ws1, t.drop_first()).0.out);
        }
    } else {
        lemma_prefix_append(ws.out, Seq::empty());
        assert(ws.out + Seq::<char>::empty() =~= ws.out);
    }
}

pub proof fn lemma_entry_written(ws: WriterState, k: Seq<char>, v: ValueView)
    ensures
        ws.out.is_prefix_of(entry_written(ws, k, v).0.out),
        entry_written(ws, k, v).0.indent == ws.indent,
        entry_written(ws, k, v).1 is Ok ==> entry_written(ws, k, v).0.tags == ws.tags,
    decreases v,
{
    match v {
        ValueView::Table(s) => {
            let ws0 = ws.opened(k);
            lemma_steps_append(ws, k, k, k);
            lemma_table_written(ws0, s);
            lemma_prefix_trans(ws.out, ws0.out, table_written(ws0, s).0.out);
            let (ws1, r1) = table_written(ws0, s);
            if r1 is Ok {
                assert(ws1.tags == ws.tags.push(k));
                assert(ws1.tags.drop_last() =~= ws.tags);
                lemma_steps_append(ws1, k, k, k);
                lemma_prefix_trans(ws.out, ws1.out, ws1.close_step().0.out);
            }
        },
        ValueView::Array(_) => {
            lemma_prefix_append(ws.out, Seq::empty());
            assert(ws.out + Seq::<char>::empty() =~= ws.out);
        },
        _ => {
            lemma_steps_append(ws, k, k, scalar_text(v));
        },
    }
}

/// Appending keeps what was there as a prefix.
pub proof fn lemma_prefix_append(a: Seq<char>, b: Seq<char>)
    ensures
        a.is_prefix_of(a + b),
{
    assert((a + b).subrange(0, a.len() as int) =~= a);
}

pub proof fn lemma_prefix_trans(a: Seq<char>, b: Seq<char>, c: Seq<char>)
    requires
        a.is_prefix_of(b),
        b.is_prefix_of(c),
    ensures
        a.is_prefix_of(c),
{
    assert(c.subrange(0, a.len() as int) =~= b.subrange(0, a.len() as int));
}

/// Each state step only appends to the output.
pub proof fn lemma_steps_append(ws: WriterState, k: Seq<char>, key: Seq<char>, value: Seq<char>)
    ensures
        ws.out.is_prefix_of(ws.opened(k).out),
        ws.out.is_prefix_of(ws.opened_with_attrib(k, key, value).out),
        ws.out.is_prefix_of(ws.element(k, value).out),
        ws.out.is_prefix_of(ws.close_step().0.out),
        ws.indent == ws.close_step().0.indent,
{
    lemma_prefix_append(ws.out, spaces(ws.width()) + ("<"@ + k + ">"@) + "\n"@);
    assert(ws.opened(k).out =~= ws.out + (spaces(ws.width()) + ("<"@ + k + ">"@) + "\n"@));
    let c = "<"@ + k + " "@ + key + "=\""@ + value + "\">"@;
    lemma_prefix_append(ws.out, spaces(ws.width()) + c + "\n"@);
    assert(ws.opened_with_attrib(k, key, value).out =~= ws.out + (spaces(ws.width()) + c + "\n"@));
    let e = "<"@ + k + ">"@ + value + "</"@ + k + ">"@;
    lemma_prefix_append(ws.out, spaces(ws.width()) + e + "\n"@);
    assert(ws.element(k, value).out =~= ws.out + (spaces(ws.width()) + e + "\n"@));
    if ws.tags.len() > 0 {
        let s = WriterState { out: ws.out, tags: ws.tags.drop_last(), indent: ws.indent };
        let c2 = "</"@ + ws.tags.last() + ">"@;
        lemma_prefix_append(ws.out, spaces(s.width()) + c2 + "\n"@);
        assert(ws.closed().out =~= ws.out + (spaces(s.width()) + c2 + "\n"@));
    } else {
        lemma_prefix_append(ws.out, Seq::empty());
        assert(ws.out + Seq::<char>::empty() =~= ws.out);
    }
}

/// An XML writer: it keeps the tags it has opened, writes each line indented
/// by `indent_amount` spaces per open tag, and appends its output to `write`.
#[derive(Clone, Debug)]
pub struct XmlWriter {
    write: String,
    open_tags: Vec<String>,
    indent_amount: usize,
}

impl View for XmlWriter {
    type V = WriterState;

    closed spec fn view(&self) -> WriterState {
        WriterState {
            out: self.write@,
            tags: self.open_tags@.map_values(|t: String| t@),
            indent: self.indent_amount as nat,
        }
    }
}

impl XmlWriter {
    /// A writer that appends to `write`, with no open tag.
    pub fn new(write: String, indent_amount: usize) -> (w: XmlWriter)
        ensures
            w@ == (WriterState { out: write@, tags: Seq::empty(), indent: indent_amount as nat }),
    {
        let w = XmlWriter { write, open_tags: Vec::new(), indent_amount };
        assert(w@.tags =~= Seq::<Seq<char>>::empty());
        w
    }

    /// The text written so far.
    pub fn output(&self) -> (s: &String)
        ensures
            s@ == self@.out,
    {
        &self.write
    }

    /// Gives up the writer and returns its text.
    pub fn into_output(self) -> (s: String)
        ensures
            s@ == self@.out,
    {
        self.write
    }

    /// Writes the indentation of a new line: `indent_amount` spaces for
    /// each open tag.
    fn spaces(&mut self)
        ensures
            final(self)@ == (WriterState { out: old(self)@.out + spaces(old(self)@.width()), ..old(self)@ }),
    {
        let levels = self.open_tags.len();
        let amount = self.indent_amount;
        let ghost start = self@.out;
        let mut level: usize = 0;
        while level < levels
            invariant
                levels == self@.tags.len(),
                amount == self@.indent,
                self@.tags == old(self)@.tags,
                self@.indent == old(self)@.indent,
                level <= levels,
                start == old(self)@.out,
                self@.out == start + spaces((level as nat) * (amount as nat)),
            decreases levels - level,
        {
            push_spaces(&mut self.write, amount);
            proof {
                lemma_mul_is_distributive_add_other_way(amount as int, level as int, 1);
                assert(spaces((level as nat) * (amount as nat)) + spaces(amount as nat) =~= spaces(((level + 1) as nat) * (amount as nat)));
            }
            level = level + 1;
        }
    }

    /// Opens `tag` on a line of its own, as `<tag>`.
    pub fn open_tag(&mut self, tag: String) -> (r: Result<(), &'static str>)
        ensures
            final(self)@ == old(self)@.opened(tag@),
            r is Ok,
    {
        self.spaces();
        self.write.append("<");
        self.write.append(tag.as_str());
        self.write.append(">");
        self.write.append("\n");
        let ghost t = tag@;
        self.open_tags.push(tag);
        assert(self@.out =~= old(self)@.opened(t).out);
        assert(self@.tags =~= old(self)@.opened(t).tags);
        Ok(())
    }

    /// Opens `tag` with one attribute, as `<tag key="value">`.
    pub fn open_tag_with_attrib(&mut self, tag: String, attrib_key: &str, attrib_value: &str) -> (r: Result<(), &'static str>)
        ensures
            final(self)@ == old(self)@.opened_with_attrib(tag@, attrib_key@, attrib_value@),
            r is Ok,
    {
        self.spaces();
        self.write.append("<");
        self.write.append(tag.as_str());
        self.write.append(" ");
        self.write.append(attrib_key);
        self.write.append("=\"");
        self.write.append(attrib_value);
        self.write.append("\">");
        self.write.append("\n");
        let ghost t = tag@;
        self.open_tags.push(tag);
        assert(self@.out =~= old(self)@.opened_with_attrib(t, attrib_key@, attrib_value@).out);
        assert(self@.tags =~= old(self)@.opened_with_attrib(t, attrib_key@, attrib_value@).tags);
        Ok(())
    }

    /// Closes the innermost open tag, as `</tag>` one level up; fails when no
    /// tag is open.
    pub fn close_tag(&mut self) -> (r: Result<(), &'static str>)
        ensures
            (final(self)@, outcome(r)) == old(self)@.close_step(),
    {
        match self.open_tags.pop() {
            None => {
                proof {
                    reveal_strlit("no open tags to close");
                }
                Err("no open tags to close")
            },
            Some(tag) => {
                proof {
                    assert(self@.tags =~= old(self)@.tags.drop_last());
                }
                self.spaces();
                self.write.append("</");
                self.write.append(tag.as_str());
                self.write.append(">");
                self.write.append("\n");
                assert(self@.out =~= old(self)@.closed().out);
                assert(self@.tags =~= old(self)@.closed().tags);
                Ok(())
            },
        }
    }

    /// Closes every open tag, innermost first.
    pub fn close_all(&mut self) -> (r: Result<(), &'static str>)
        ensures
            final(self)@ == old(self)@.all_closed(),
            r is Ok,
    {
        while !self.open_tags.is_empty()
            invariant
                self@.all_closed() == old(self)@.all_closed(),
            decreases self@.tags.len(),
        {
            let r = self.close_tag();
            if r.is_err() {
                return r;
            }
        }
        Ok(())
    }

    /// Writes `<tag>value</tag>` on a line of its own.
    pub fn element(&mut self, tag: &str, value: &str) -> (r: Result<(), &'static str>)
        ensures
            final(self)@ == old(self)@.element(tag@, value@),
            r is Ok,
    {
        self.spaces();
        self.write.append("<");
        self.write.append(tag);
        self.write.append(">");
        self.write.append(value);
        self.write.append("</");
        self.write.append(tag);
        self.write.append(">");
        self.write.append("\n");
        assert(self@.out =~= old(self)@.element(tag@, value@).out);
        Ok(())
    }

    /// Writes the entries of `table` in key order: a scalar as an element,
    /// a table as a tag around its own entries; fails at the first array.
    pub fn write_table(&mut self, table: &TomlTable) -> (r: Result<(), &'static str>)
        ensures
            (final(self)@, outcome(r)) == table_written(old(self)@, table@),
        decreases table@,
    {
        let n = table.len();
        let ghost t = table@;
        let ghost start = self@;
        let mut i: usize = 0;
        assert(t.skip(0) =~= t);
        while i < n
            invariant
                n == t.len(),
                t == table@,
                start == old(self)@,
                i <= n,
                table_written(start, t) == table_written(self@, t.skip(i as int)),
                self@.indent == start.indent,
                self@.tags == start.tags,
            decreases n - i,
        {
            let (key, value) = table.entry(i);
            let ghost ws = self@;
            let ghost rest = t.skip(i as int);
            proof {
                assert(rest[0] == t[i as int]);
                assert(rest.drop_first() =~= t.skip(i + 1));
                lemma_entry_written(ws, key@, value@);
            }
            let r = match value {
                TomlValue::String(s) => self.element(key.as_str(), s.as_str()),
                TomlValue::Integer(x) => {
                    let text = i64_decimal(*x);
                    self.element(key.as_str(), text.as_str())
                },
                TomlValue::Float(x) => self.element(key.as_str(), x.as_str()),
                TomlValue::Boolean(b) => {
                    let text = bool_string(*b);
                    self.element(key.as_str(), text.as_str())
                },
                TomlValue::Datetime(d) => {
                    let text = datetime_to_string(d);
                    self.element(key.as_str(), text.as_str())
                },
                TomlValue::Array(_) => {
                    proof {
                        reveal_strlit("unexpected array in TOML");
                    }
                    Err("unexpected array in TOML")
                },
                TomlValue::Table(sub) => {
                    proof {
                        assert(decreases_to!(table@ => sub@)) by {
                            assert(table@[i as int].1 == ValueView::Table(sub@));
                        }
                    }
                    let opened = self.open_tag(key.clone());
                    let inner = self.write_table(sub);
                    match inner {
                        Err(e) => Err(e),
                        Ok(()) => {
                            proof {
                                lemma_table_written(ws.opened(key@), sub@);
                            }
                            self.close_tag()
                        },
                    }
                },
            };
            assert((self@, outcome(r)) == entry_written(ws, rest[0].0, rest[0].1));
            if r.is_err() {
                return r;
            }
            i = i + 1;
        }
        Ok(())
    }
}

/// A value that can write itself with an `XmlWriter`.
pub trait XmlWrite {
    /// The writer's state and the outcome after writing `self` from state `ws`.
    spec fn written(&self, ws: WriterState) -> (WriterState, Outcome);

    fn write(&self, writer: &mut XmlWriter) -> (r: Result<(), &'static str>)
        ensures
            (final(writer)@, outcome(r)) == self.written(old(writer)@),
    ;
}

/// The state and outcome of writing `items` in order, stopping at the first
/// that fails.
pub open spec fn items_written<T: XmlWrite>(ws: WriterState, items: Seq<T>) -> (WriterState, Outcome)
    decreases items.len(),
{
    if items.len() == 0 {
        (ws, Ok(()))
    } else {
        let (ws1, r1) = items[0].written(ws);
        if r1 is Err {
            (ws1, r1)
        } else {
            items_written(ws1, items.drop_first())
        }
    }
}

/// Writes `items` in order, stopping at the first that fails.
pub fn write_items<T: XmlWrite>(writer: &mut XmlWriter, items: &Vec<T>) -> (r: Result<(), &'static str>)
    ensures
        (final(writer)@, outcome(r)) == items_written(old(writer)@, items@),
{
    let n = items.len();
    let ghost s = items@;
    let mut i: usize = 0;
    assert(s.skip(0) =~= s);
    while i < n
        invariant
            n == s.len(),
            s == items@,
            i <= n,
            items_written(old(writer)@, s) == items_written(writer@, s.skip(i as int)),
        decreases n - i,
    {
        let ghost ws = writer@;
        proof {
            assert(s.skip(i as int)[0] == s[i as int]);
            assert(s.skip(i as int).drop_first() =~= s.skip(i + 1));
        }
        let r = items[i].write(writer);
        if r.is_err() {
            return r;
        }
        i = i + 1;
    }
    Ok(())
}

} // verus!
