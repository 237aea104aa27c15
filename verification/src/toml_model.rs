//! The TOML data that a project description is made of: values, and tables
//! that keep their entries ordered by key, as `toml::Table` iterates them.
use vstd::prelude::*;
use crate::text::{key_lt, lemma_key_lt_irreflexive, lemma_key_lt_total, lemma_key_lt_transitive, str_lt, nat_decimal, int_decimal, bool_text};

verus! {

/// A TOML date.
#[derive(Clone, Copy, Debug, PartialEq, Eq)]
pub struct TomlDate {
    pub year: u16,
    pub month: u8,
    pub day: u8,
}

/// A TOML time of day.
#[derive(Clone, Copy, Debug, PartialEq, Eq)]
pub struct TomlTime {
    pub hour: u8,
    pub minute: u8,
    pub second: Option<u8>,
    pub nanosecond: Option<u32>,
}

/// The offset of a TOML datetime: `Z`, or a number of minutes from UTC.
#[derive(Clone, Copy, Debug, PartialEq, Eq)]
pub enum TomlOffset {
    Z,
    Custom(i16),
}

/// The parts of a TOML datetime: its date, its time of day and its offset.
pub type DatetimeView = (Option<TomlDate>, Option<TomlTime>, Option<TomlOffset>);

/// A TOML datetime, made of the parts that the document gave. Its parts are
/// always those of a datetime that TOML can write: see `datetime_well_formed`.
#[derive(Clone, Copy, Debug, PartialEq, Eq)]
pub struct TomlDatetime {
    date: Option<TomlDate>,
    time: Option<TomlTime>,
    offset: Option<TomlOffset>,
}

pub open spec fn is_leap_year(year: int) -> bool {
    year % 4 == 0 && (year % 100 != 0 || year % 400 == 0)
}

pub open spec fn days_in_month(year: int, month: int) -> int {
    if month == 2 {
        if is_leap_year(year) {
            29
        } else {
            28
        }
    } else if month == 4 || month == 6 || month == 9 || month == 11 {
        30
    } else {
        31
    }
}

/// A date with a four-digit year, a month from 1 to 12 and a day of that month.
pub open spec fn date_well_formed(d: TomlDate) -> bool {
    &&& d.year <= 9999
    &&& 1 <= d.month <= 12
    &&& 1 <= d.day <= days_in_month(d.year as int, d.month as int)
}

/// A time with an hour up to 23, a minute up to 59, a second up to 60 (a leap
/// second), and a fraction of a second, in nanoseconds below one second, only
/// after a second.
pub open spec fn time_well_formed(t: TomlTime) -> bool {
    &&& t.hour <= 23
    &&& t.minute <= 59
    &&& (t.second matches Some(s) ==> s <= 60)
    &&& (t.nanosecond matches Some(n) ==> n <= 999_999_999 && t.second is Some)
}

/// An offset of at most 23 hours and 59 minutes either way.
pub open spec fn offset_well_formed(o: TomlOffset) -> bool {
    match o {
        TomlOffset::Z => true,
        TomlOffset::Custom(m) => -1439 <= m <= 1439,
    }
}

/// The datetimes that TOML reads and writes: a date, a time, or both; an
/// offset only with both; each part well formed.
pub open spec fn datetime_well_formed(d: DatetimeView) -> bool {
    &&& (d.0 is Some || d.1 is Some)
    &&& (d.2 is Some ==> d.0 is Some && d.1 is Some)
    &&& (d.0 matches Some(x) ==> date_well_formed(x))
    &&& (d.1 matches Some(x) ==> time_well_formed(x))
    &&& (d.2 matches Some(x) ==> offset_well_formed(x))
}

impl View for TomlDatetime {
    type V = DatetimeView;

    closed spec fn view(&self) -> DatetimeView {
        (self.date, self.time, self.offset)
    }
}

impl TomlDatetime {
    #[verifier::type_invariant]
    spec fn parts_well_formed(self) -> bool {
        datetime_well_formed((self.date, self.time, self.offset))
    }

    /// The datetime with these parts, when they are well formed.
    pub fn new(date: Option<TomlDate>, time: Option<TomlTime>, offset: Option<TomlOffset>) -> (r: Option<TomlDatetime>)
        ensures
            r is Some <==> datetime_well_formed((date, time, offset)),
            r matches Some(d) ==> d@ == (date, time, offset),
    {
        if date.is_none() && time.is_none() {
            return None;
        }
        if offset.is_some() && (date.is_none() || time.is_none()) {
            return None;
        }
        if let Some(x) = date {
            let leap = x.year % 4 == 0 && (x.year % 100 != 0 || x.year % 400 == 0);
            let days: u8 = if x.month == 2 {
                if leap {
                    29
                } else {
                    28
                }
            } else if x.month == 4 || x.month == 6 || x.month == 9 || x.month == 11 {
                30
            } else {
                31
            };
            if x.year > 9999 || x.month < 1 || x.month > 12 || x.day < 1 || x.day > days {
                return None;
            }
        }
        if let Some(x) = time {
            if x.hour > 23 || x.minute > 59 {
                return None;
            }
            if let Some(sec) = x.second {
                if sec > 60 {
                    return None;
                }
            }
            if let Some(n) = x.nanosecond {
                if n > 999_999_999 || x.second.is_none() {
                    return None;
                }
            }
        }
        if let Some(TomlOffset::Custom(m)) = offset {
            if m < -1439 || m > 1439 {
                return None;
            }
        }
        Some(TomlDatetime { date, time, offset })
    }

    /// The parts of the datetime, which are well formed.
    pub fn parts(&self) -> (r: (Option<TomlDate>, Option<TomlTime>, Option<TomlOffset>))
        ensures
            r == self@,
            datetime_well_formed(self@),
    {
        proof {
            use_type_invariant(self);
        }
        (self.date, self.time, self.offset)
    }
}

/// The decimal notation of `n` with leading zeros up to `width` digits, as
/// the format `{:0width$}` writes it.
pub open spec fn padded(n: nat, width: nat) -> Seq<char> {
    let digits = nat_decimal(n);
    if digits.len() < width {
        Seq::new((width - digits.len()) as nat, |_i: int| '0') + digits
    } else {
        digits
    }
}

/// The text without its trailing `0` characters.
pub open spec fn trim_trailing_zeros(s: Seq<char>) -> Seq<char>
    decreases s.len(),
{
    if s.len() > 0 && s.last() == '0' {
        trim_trailing_zeros(s.drop_last())
    } else {
        s
    }
}

/// A date as RFC 3339 writes it: `YYYY-MM-DD`.
pub open spec fn date_display(d: TomlDate) -> Seq<char> {
    padded(d.year as nat, 4) + "-"@ + padded(d.month as nat, 2) + "-"@ + padded(d.day as nat, 2)
}

/// A time as RFC 3339 writes it: `HH:MM`, then `:SS` when there is a second
/// (or a fraction), then the fraction without its trailing zeros.
pub open spec fn time_display(t: TomlTime) -> Seq<char> {
    let second = match t.second {
        Some(x) => ":"@ + padded(x as nat, 2),
        None => if t.nanosecond is Some {
            ":"@ + padded(0, 2)
        } else {
            Seq::empty()
        },
    };
    let fraction = match t.nanosecond {
        Some(n) => {
            let f = trim_trailing_zeros(padded(n as nat, 9));
            "."@ + if f.len() == 0 {
                "0"@
            } else {
                f
            }
        },
        None => Seq::empty(),
    };
    padded(t.hour as nat, 2) + ":"@ + padded(t.minute as nat, 2) + second + fraction
}

/// An offset as RFC 3339 writes it: `Z`, or a sign and `HH:MM`.
pub open spec fn offset_display(o: TomlOffset) -> Seq<char> {
    match o {
        TomlOffset::Z => "Z"@,
        TomlOffset::Custom(m) => {
            let a: nat = if m < 0 {
                (-m) as nat
            } else {
                m as nat
            };
            (if m < 0 {
                "-"@
            } else {
                "+"@
            }) + padded(a / 60, 2) + ":"@ + padded(a % 60, 2)
        },
    }
}

/// A datetime as `toml` writes it: the date, a `T` between date and time,
/// the time, then the offset.
pub open spec fn datetime_display(d: DatetimeView) -> Seq<char> {
    let date = match d.0 {
        Some(x) => date_display(x),
        None => Seq::empty(),
    };
    let time = match d.1 {
        Some(x) => (if d.0 is Some {
            "T"@
        } else {
            Seq::empty()
        }) + time_display(x),
        None => Seq::empty(),
    };
    let offset = match d.2 {
        Some(x) => offset_display(x),
        None => Seq::empty(),
    };
    date + time + offset
}

/// A TOML value.
///
/// A float is held as the text that its `to_string` gives (its digits, `NaN`,
/// `inf` or `-inf`): that text is all that is ever written of it.
#[derive(Debug, PartialEq)]
pub enum TomlValue {
    String(String),
    Integer(i64),
    Float(String),
    Boolean(bool),
    Datetime(TomlDatetime),
    Array(Vec<TomlValue>),
    Table(TomlTable),
}

/// A TOML table: entries with distinct keys, ordered by key, as
/// `toml::Table` keeps them. `toml::map::Map` itself cannot hold `TomlValue`:
/// Verus refuses a value type that recurses through that outside map.
#[derive(Debug, PartialEq)]
pub struct TomlTable {
    entries: Vec<(String, TomlValue)>,
}

/// The mathematical value of a `TomlValue`.
pub enum ValueView {
    String(Seq<char>),
    Integer(i64),
    Float(Seq<char>),
    Boolean(bool),
    Datetime(DatetimeView),
    Array(Seq<ValueView>),
    Table(Seq<(Seq<char>, ValueView)>),
}

/// The mathematical value of a table: its entries in key order.
pub type TableView = Seq<(Seq<char>, ValueView)>;

pub closed spec fn value_view(v: TomlValue) -> ValueView
    decreases v,
{
    match v {
        TomlValue::String(s) => ValueView::String(s@),
        TomlValue::Integer(n) => ValueView::Integer(n),
        TomlValue::Float(t) => ValueView::Float(t@),
        TomlValue::Boolean(b) => ValueView::Boolean(b),
        TomlValue::Datetime(d) => ValueView::Datetime(d@),
        TomlValue::Array(a) => ValueView::Array(values_view(a@)),
        TomlValue::Table(t) => ValueView::Table(entries_view(t.entries@)),
    }
}

pub closed spec fn values_view(s: Seq<TomlValue>) -> Seq<ValueView>
    decreases s,
{
    if s.len() == 0 {
        Seq::empty()
    } else {
        values_view(s.drop_last()).push(value_view(s.last()))
    }
}

pub closed spec fn entries_view(s: Seq<(String, TomlValue)>) -> TableView
    decreases s,
{
    if s.len() == 0 {
        Seq::empty()
    } else {
        entries_view(s.drop_last()).push((s.last().0@, value_view(s.last().1)))
    }
}

impl View for TomlValue {
    type V = ValueView;

    open spec fn view(&self) -> ValueView {
        value_view(*self)
    }
}

impl View for TomlTable {
    type V = TableView;

    closed spec fn view(&self) -> TableView {
        entries_view(self.entries@)
    }
}

/// How the view of a value is made from the views of its parts.
pub broadcast proof fn lemma_value_view(v: TomlValue)
    ensures
        #[trigger] value_view(v) == match v {
            TomlValue::String(s) => ValueView::String(s@),
            TomlValue::Integer(n) => ValueView::Integer(n),
            TomlValue::Float(t) => ValueView::Float(t@),
            TomlValue::Boolean(b) => ValueView::Boolean(b),
            TomlValue::Datetime(d) => ValueView::Datetime(d@),
            TomlValue::Array(a) => ValueView::Array(values_view(a@)),
            TomlValue::Table(t) => ValueView::Table(t@),
        },
{
}

pub proof fn lemma_values_view(s: Seq<TomlValue>)
    ensures
        values_view(s).len() == s.len(),
        forall|i: int| 0 <= i < s.len() ==> #[trigger] values_view(s)[i] == value_view(s[i]),
    decreases s.len(),
{
    if s.len() > 0 {
        lemma_values_view(s.drop_last());
    }
}

pub proof fn lemma_entries_view(s: Seq<(String, TomlValue)>)
    ensures
        entries_view(s).len() == s.len(),
        forall|i: int|
            0 <= i < s.len() ==> #[trigger] entries_view(s)[i] == (s[i].0@, value_view(s[i].1)),
    decreases s.len(),
{
    if s.len() > 0 {
        lemma_entries_view(s.drop_last());
    }
}

/// Keys in strictly increasing order, so also distinct.
pub open spec fn keys_sorted(t: TableView) -> bool {
    forall|i: int, j: int| 0 <= i < j < t.len() ==> key_lt(#[trigger] t[i].0, #[trigger] t[j].0)
}

/// The position of the entry with key `k`.
pub open spec fn key_index(t: TableView, k: Seq<char>) -> Option<int>
    decreases t.len(),
{
    if t.len() == 0 {
        None
    } else if t[0].0 == k {
        Some(0)
    } else {
        match key_index(t.drop_first(), k) {
            Some(i) => Some(i + 1),
            None => None,
        }
    }
}

/// The value stored under key `k`.
pub open spec fn lookup(t: TableView, k: Seq<char>) -> Option<ValueView> {
    match key_index(t, k) {
        Some(i) => Some(t[i].1),
        None => None,
    }
}

/// The table without the entry for key `k`.
pub open spec fn without(t: TableView, k: Seq<char>) -> TableView {
    match key_index(t, k) {
        Some(i) => t.remove(i),
        None => t,
    }
}

/// Where an entry with key `k` goes among the entries of a sorted table:
/// after every entry whose key is smaller.
pub open spec fn insert_pos(t: TableView, k: Seq<char>) -> int
    decreases t.len(),
{
    if t.len() == 0 {
        0
    } else if key_lt(t[0].0, k) {
        1 + insert_pos(t.drop_first(), k)
    } else {
        0
    }
}

/// The table with `v` stored under `k`: the entry of `k` gets the new value,
/// or a new entry takes its place in key order.
pub open spec fn with_entry(t: TableView, k: Seq<char>, v: ValueView) -> TableView {
    match key_index(t, k) {
        Some(i) => t.update(i, (k, v)),
        None => t.insert(insert_pos(t, k), (k, v)),
    }
}

/// `key_index` finds the first entry with key `k`, and no earlier one.
pub proof fn lemma_key_index(t: TableView, k: Seq<char>)
    ensures
        key_index(t, k) matches Some(i) ==> 0 <= i < t.len() && t[i].0 == k && forall|j: int|
            0 <= j < i ==> t[j].0 != k,
        key_index(t, k) is None ==> forall|j: int| 0 <= j < t.len() ==> t[j].0 != k,
    decreases t.len(),
{
    if t.len() > 0 {
        lemma_key_index(t.drop_first(), k);
        if t[0].0 != k {
            assert forall|j: int| 0 < j < t.len() implies t[j].0 == t.drop_first()[j - 1].0 by {}
        }
    }
}

/// An index holding key `k`, with no earlier one, is what `key_index` gives.
proof fn lemma_key_index_at(t: TableView, k: Seq<char>, i: int)
    requires
        0 <= i <= t.len(),
        forall|j: int| 0 <= j < i ==> t[j].0 != k,
    ensures
        i < t.len() && t[i].0 == k ==> key_index(t, k) == Some(i),
        i == t.len() ==> key_index(t, k) is None,
    decreases i,
{
    if i > 0 {
        lemma_key_index_at(t.drop_first(), k, i - 1);
    }
}

/// In a table with sorted keys, no entry but the one `key_index` names has key `k`.
pub proof fn lemma_sorted_key_unique(t: TableView, k: Seq<char>)
    requires
        keys_sorted(t),
    ensures
        key_index(t, k) matches Some(i) ==> forall|j: int|
            0 <= j < t.len() && j != i ==> t[j].0 != k,
        forall|j: int| 0 <= j < without(t, k).len() ==> without(t, k)[j].0 != k,
{
    lemma_key_index(t, k);
    if let Some(i) = key_index(t, k) {
        assert forall|j: int| 0 <= j < t.len() && j != i implies t[j].0 != k by {
            if j < i {
            } else {
                lemma_key_lt_irreflexive(k);
            }
        }
    }
}

/// Taking out the entry of one key leaves the entry of another where it is
/// found.
pub proof fn lemma_lookup_without(t: TableView, a: Seq<char>, b: Seq<char>)
    requires
        a != b,
    ensures
        lookup(without(t, a), b) == lookup(t, b),
{
    lemma_key_index(t, a);
    lemma_key_index(t, b);
    if let Some(i) = key_index(t, a) {
        let r = t.remove(i);
        lemma_key_index(r, b);
        match key_index(t, b) {
            Some(j) => {
                let j2 = if j < i { j } else { j - 1 };
                assert(j != i);
                assert(r[j2] == t[j]);
                assert forall|m: int| 0 <= m < j2 implies r[m].0 != b by {
                    if m < i {
                        assert(r[m] == t[m]);
                    } else {
                        assert(r[m] == t[m + 1]);
                    }
                }
                lemma_key_index_at(r, b, j2);
            },
            None => {
                assert forall|m: int| 0 <= m < r.len() implies r[m].0 != b by {
                    if m < i {
                        assert(r[m] == t[m]);
                    } else {
                        assert(r[m] == t[m + 1]);
                    }
                }
                lemma_key_index_at(r, b, r.len() as int);
            },
        }
    }
}

/// Removing an entry keeps the keys sorted.
pub proof fn lemma_sorted_remove(t: TableView, i: int)
    requires
        keys_sorted(t),
        0 <= i < t.len(),
    ensures
        keys_sorted(t.remove(i)),
{
    let r = t.remove(i);
    assert forall|a: int, b: int| 0 <= a < b < r.len() implies key_lt(#[trigger] r[a].0, #[trigger] r[b].0) by {
        let a2 = if a < i { a } else { a + 1 };
        let b2 = if b < i { b } else { b + 1 };
        assert(r[a] == t[a2]);
        assert(r[b] == t[b2]);
    }
}

/// A position after every smaller key and before every other is what
/// `insert_pos` gives.
proof fn lemma_insert_pos_at(t: TableView, k: Seq<char>, p: int)
    requires
        0 <= p <= t.len(),
        forall|j: int| 0 <= j < p ==> key_lt(#[trigger] t[j].0, k),
        p < t.len() ==> !key_lt(t[p].0, k),
    ensures
        insert_pos(t, k) == p,
    decreases p,
{
    if p > 0 {
        assert(key_lt(t[0].0, k));
        assert forall|j: int| 0 <= j < p - 1 implies key_lt(#[trigger] t.drop_first()[j].0, k) by {
            assert(t.drop_first()[j] == t[j + 1]);
        }
        lemma_insert_pos_at(t.drop_first(), k, p - 1);
    }
}

/// Putting a new key at its place keeps the keys sorted.
proof fn lemma_sorted_insert(t: TableView, k: Seq<char>, v: ValueView, p: int)
    requires
        keys_sorted(t),
        0 <= p <= t.len(),
        forall|j: int| 0 <= j < p ==> key_lt(#[trigger] t[j].0, k),
        forall|j: int| p <= j < t.len() ==> key_lt(k, #[trigger] t[j].0),
    ensures
        keys_sorted(t.insert(p, (k, v))),
{
    let r = t.insert(p, (k, v));
    assert forall|a: int, b: int| 0 <= a < b < r.len() implies key_lt(#[trigger] r[a].0, #[trigger] r[b].0) by {
        if a < p && b < p {
            assert(r[a] == t[a] && r[b] == t[b]);
        } else if a < p && b == p {
            assert(r[a] == t[a]);
        } else if a < p {
            assert(r[a] == t[a] && r[b] == t[b - 1]);
        } else if a == p {
            assert(r[b] == t[b - 1]);
        } else {
            assert(r[a] == t[a - 1] && r[b] == t[b - 1]);
        }
    }
}

impl Clone for TomlValue {
    /// A copy with the same content.
    fn clone(&self) -> (r: TomlValue)
        ensures
            r@ == self@,
        decreases self@,
    {
        match self {
            TomlValue::String(s) => TomlValue::String(s.clone()),
            TomlValue::Integer(n) => TomlValue::Integer(*n),
            TomlValue::Float(t) => TomlValue::Float(t.clone()),
            TomlValue::Boolean(b) => TomlValue::Boolean(*b),
            TomlValue::Datetime(d) => TomlValue::Datetime(*d),
            TomlValue::Array(a) => {
                let mut copy: Vec<TomlValue> = Vec::new();
                let n = a.len();
                let mut i: usize = 0;
                proof {
                    lemma_values_view(a@);
                }
                while i < n
                    invariant
                        n == a@.len(),
                        i <= n,
                        copy@.len() == i,
                        values_view(a@).len() == n,
                        forall|j: int| 0 <= j < n ==> #[trigger] values_view(a@)[j] == value_view(a@[j]),
                        forall|j: int| 0 <= j < i ==> #[trigger] value_view(copy@[j]) == value_view(a@[j]),
                        self@ == ValueView::Array(values_view(a@)),
                    decreases n - i,
                {
                    proof {
                        let vs = values_view(a@);
                        assert(vs[i as int] == a@[i as int]@);
                        let v = self@;
                        assert(v == ValueView::Array(vs));
                        assert(decreases_to!(v => v->Array_0));
                        assert(decreases_to!(vs => vs[i as int]));
                        assert(decreases_to!(self@ => a@[i as int]@));
                    }
                    copy.push(a[i].clone());
                    i = i + 1;
                }
                proof {
                    lemma_values_view(copy@);
                    assert(values_view(copy@) =~= values_view(a@));
                }
                TomlValue::Array(copy)
            },
            TomlValue::Table(t) => {
                proof {
                    let v = self@;
                    assert(v == ValueView::Table(t@));
                    assert(decreases_to!(v => v->Table_0));
                }
                TomlValue::Table(t.clone())
            },
        }
    }
}

impl Clone for TomlTable {
    /// A copy with the same entries.
    fn clone(&self) -> (r: TomlTable)
        ensures
            r@ == self@,
        decreases self@,
    {
        proof {
            use_type_invariant(self);
            lemma_entries_view(self.entries@);
        }
        let mut copy: Vec<(String, TomlValue)> = Vec::new();
        let n = self.entries.len();
        let mut i: usize = 0;
        while i < n
            invariant
                n == self.entries@.len(),
                n == self@.len(),
                i <= n,
                copy@.len() == i,
                keys_sorted(self@),
                forall|j: int| 0 <= j < n ==> #[trigger] self@[j] == (self.entries@[j].0@, value_view(self.entries@[j].1)),
                forall|j: int| 0 <= j < i ==> (#[trigger] copy@[j].0@, value_view(copy@[j].1)) == self@[j],
            decreases n - i,
        {
            proof {
                assert(decreases_to!(self@ => self@[i as int].1));
            }
            let k = self.entries[i].0.clone();
            let v = self.entries[i].1.clone();
            copy.push((k, v));
            i = i + 1;
        }
        proof {
            lemma_entries_view(copy@);
            assert(entries_view(copy@) =~= self@);
        }
        TomlTable { entries: copy }
    }
}

impl TomlTable {
    #[verifier::type_invariant]
    spec fn keys_in_order(self) -> bool {
        keys_sorted(entries_view(self.entries@))
    }

    /// An empty table.
    pub fn new() -> (t: TomlTable)
        ensures
            t@ == Seq::<(Seq<char>, ValueView)>::empty(),
    {
        let t = TomlTable { entries: Vec::new() };
        assert(entries_view(t.entries@) =~= Seq::<(Seq<char>, ValueView)>::empty());
        t
    }

    /// The number of entries.
    pub fn len(&self) -> (n: usize)
        ensures
            n == self@.len(),
            keys_sorted(self@),
    {
        proof {
            use_type_invariant(self);
            lemma_entries_view(self.entries@);
        }
        self.entries.len()
    }

    /// Whether the table has no entries.
    pub fn is_empty(&self) -> (b: bool)
        ensures
            b == (self@.len() == 0),
            keys_sorted(self@),
    {
        proof {
            use_type_invariant(self);
            lemma_entries_view(self.entries@);
        }
        self.entries.len() == 0
    }

    /// The key and value of the `i`-th entry in key order.
    pub fn entry(&self, i: usize) -> (kv: (&String, &TomlValue))
        requires
            i < self@.len(),
        ensures
            kv.0@ == self@[i as int].0,
            kv.1@ == self@[i as int].1,
    {
        proof {
            lemma_entries_view(self.entries@);
        }
        let e = &self.entries[i];
        (&e.0, &e.1)
    }

    /// The position of key `k`, found by a scan over the entries.
    fn find(&self, k: &String) -> (r: Option<usize>)
        ensures
            r matches Some(i) ==> key_index(self@, k@) == Some(i as int) && i < self@.len(),
            r is None ==> key_index(self@, k@) is None,
    {
        proof {
            lemma_entries_view(self.entries@);
            assert forall|j: int| 0 <= j < self.entries@.len() implies #[trigger] self@[j].0
                == self.entries@[j].0@ by {
                assert(self@[j] == entries_view(self.entries@)[j]);
            }
        }
        let n = self.entries.len();
        let mut i: usize = 0;
        while i < n
            invariant
                n == self.entries@.len(),
                n == self@.len(),
                forall|j: int| 0 <= j < n ==> #[trigger] self@[j].0 == self.entries@[j].0@,
                i <= n,
                forall|j: int| 0 <= j < i ==> self@[j].0 != k@,
            decreases n - i,
        {
            if self.entries[i].0 == *k {
                proof {
                    lemma_key_index_at(self@, k@, i as int);
                }
                return Some(i);
            }
            i = i + 1;
        }
        proof {
            lemma_key_index_at(self@, k@, n as int);
        }
        None
    }

    /// Stores `v` under key `k` and returns the value that was stored there
    /// before, as `toml::Table::insert` does: an existing entry keeps its
    /// place, a new one goes where its key belongs in key order.
    pub fn insert(&mut self, k: String, v: TomlValue) -> (r: Option<TomlValue>)
        ensures
            final(self)@ == with_entry(old(self)@, k@, v@),
            keys_sorted(final(self)@),
            match lookup(old(self)@, k@) {
                Some(x) => r matches Some(y) && y@ == x,
                None => r is None,
            },
    {
        proof {
            use_type_invariant(&*self);
            lemma_entries_view(self.entries@);
            lemma_key_index(self@, k@);
        }
        let ghost before = self.entries@;
        let ghost tv = self@;
        let ghost kv = k@;
        let ghost vv = v@;
        match self.find(&k) {
            Some(i) => {
                let mut entries = Vec::new();
                std::mem::swap(&mut entries, &mut self.entries);
                let (key, old_value) = entries.remove(i);
                entries.insert(i, (key, v));
                proof {
                    lemma_entries_view(entries@);
                    assert(entries_view(entries@) =~= tv.update(i as int, (kv, vv)));
                    let r = tv.update(i as int, (kv, vv));
                    assert forall|a: int, b: int| 0 <= a < b < r.len() implies key_lt(
                        #[trigger] r[a].0,
                        #[trigger] r[b].0,
                    ) by {
                        assert(r[a].0 == tv[a].0 && r[b].0 == tv[b].0);
                    }
                }
                self.entries = entries;
                Some(old_value)
            },
            None => {
                let n = self.entries.len();
                let mut p: usize = 0;
                let mut scanning = true;
                while scanning && p < n
                    invariant
                        n == self.entries@.len(),
                        n == tv.len(),
                        tv == self@,
                        kv == k@,
                        self.entries@ == before,
                        tv == entries_view(before),
                        forall|j: int| 0 <= j < n ==> #[trigger] tv[j].0 == before[j].0@,
                        p <= n,
                        forall|j: int| 0 <= j < p ==> key_lt(#[trigger] tv[j].0, kv),
                        !scanning ==> p < n && !key_lt(tv[p as int].0, kv),
                    decreases n - p + (if scanning { 1int } else { 0int }),
                {
                    assert(tv[p as int].0 == before[p as int].0@);
                    if str_lt(self.entries[p].0.as_str(), k.as_str()) {
                        p = p + 1;
                    } else {
                        scanning = false;
                    }
                }
                proof {
                    if p < n {
                        assert(!key_lt(tv[p as int].0, kv));
                    }
                    lemma_insert_pos_at(tv, kv, p as int);
                    use_type_invariant(&*self);
                    assert forall|j: int| p <= j < tv.len() implies key_lt(kv, #[trigger] tv[j].0) by {
                        lemma_key_lt_total(tv[p as int].0, kv);
                        if j > p {
                            lemma_key_lt_transitive(kv, tv[p as int].0, tv[j].0);
                        }
                    }
                    lemma_sorted_insert(tv, kv, vv, p as int);
                }
                let mut entries = Vec::new();
                std::mem::swap(&mut entries, &mut self.entries);
                entries.insert(p, (k, v));
                proof {
                    lemma_entries_view(entries@);
                    assert(entries_view(entries@) =~= tv.insert(p as int, (kv, vv)));
                }
                self.entries = entries;
                None
            },
        }
    }

    /// Takes the first entry, in key order, out of the table.
    pub fn pop_first(&mut self) -> (r: Option<(String, TomlValue)>)
        ensures
            old(self)@.len() == 0 ==> r is None && final(self)@ == old(self)@,
            old(self)@.len() > 0 ==> (r matches Some((k, v)) && k@ == old(self)@[0].0 && v@
                == old(self)@[0].1 && final(self)@ == old(self)@.drop_first()),
            keys_sorted(final(self)@),
    {
        proof {
            use_type_invariant(&*self);
            lemma_entries_view(self.entries@);
        }
        if self.entries.len() == 0 {
            return None;
        }
        let ghost before = self.entries@;
        let ghost tv = self@;
        let mut entries = Vec::new();
        std::mem::swap(&mut entries, &mut self.entries);
        let first = entries.remove(0);
        proof {
            lemma_entries_view(entries@);
            assert(entries@ =~= before.remove(0));
            assert(entries_view(entries@) =~= tv.remove(0));
            lemma_sorted_remove(tv, 0);
        }
        self.entries = entries;
        Some(first)
    }

    /// Takes the entry for key `k` out of the table and returns its value,
    /// as `toml::Table::remove` does.
    pub fn remove(&mut self, k: &str) -> (r: Option<TomlValue>)
        ensures
            final(self)@ == without(old(self)@, k@),
            keys_sorted(final(self)@),
            match lookup(old(self)@, k@) {
                Some(v) => r matches Some(x) && x@ == v,
                None => r is None,
            },
    {
        proof {
            use_type_invariant(&*self);
            lemma_entries_view(self.entries@);
        }
        let key = String::from_str(k);
        proof {
            lemma_key_index(self@, k@);
        }
        match self.find(&key) {
            Some(i) => {
                let ghost before = self.entries@;
                let mut entries = Vec::new();
                std::mem::swap(&mut entries, &mut self.entries);
                let (_, v) = entries.remove(i);
                proof {
                    lemma_entries_view(entries@);
                    lemma_entries_view(before);
                    assert(entries@ =~= before.remove(i as int));
                    assert(entries_view(entries@) =~= entries_view(before).remove(i as int));
                    lemma_sorted_remove(entries_view(before), i as int);
                }
                self.entries = entries;
                Some(v)
            },
            None => None,
        }
    }
}

#[verifier::external_type_specification]
#[verifier::external_body]
pub struct ExTomlValue(toml::Value);

#[verifier::external_type_specification]
#[verifier::external_body]
pub struct ExTomlDatetime(toml::value::Datetime);

#[verifier::external_type_specification]
#[verifier::external_body]
#[verifier::reject_recursive_types(K)]
#[verifier::reject_recursive_types(V)]
pub struct ExTomlMap<K, V>(toml::map::Map<K, V>);

/// The table that `toml` reads from the text of a TOML document, or `None`
/// when it refuses the text.
pub uninterp spec fn toml_document(src: Seq<char>) -> Option<TableView>;

/// The message of the error that `toml` gives for a text it refuses.
pub uninterp spec fn toml_parse_message(src: Seq<char>) -> Seq<char>;

/// The text that `toml`'s `Display` for `Value` writes for this value: the
/// value in TOML syntax.
pub uninterp spec fn toml_value_text(v: ValueView) -> Seq<char>;

/// Builds the `toml::value::Datetime` with the same date, time and offset.
/// Nothing is stated of the result, a value that Verus does not look into.
#[verifier::external_body]
fn to_toml_datetime(d: &TomlDatetime) -> toml::value::Datetime {
    let date = d.date.map(|x| toml::value::Date { year: x.year, month: x.month, day: x.day });
    let time = d.time.map(
        |t| toml::value::Time { hour: t.hour, minute: t.minute, second: t.second, nanosecond: t.nanosecond },
    );
    let offset = d.offset.map(
        |o| match o {
            TomlOffset::Z => toml::value::Offset::Z,
            TomlOffset::Custom(minutes) => toml::value::Offset::Custom { minutes },
        },
    );
    toml::value::Datetime { date, time, offset }
}

/// Builds the `toml::Value` with the same content, entry for entry. A float
/// comes back from its text by `str::parse`, which gives back the number that
/// `to_string` wrote; a text that is no float's becomes a TOML string.
/// Nothing is stated of the result, a value that Verus does not look into.
#[verifier::external_body]
fn to_toml_value(v: &TomlValue) -> toml::Value {
    match v {
        TomlValue::String(s) => toml::Value::String(s.clone()),
        TomlValue::Integer(n) => toml::Value::Integer(*n),
        TomlValue::Float(t) => t.parse().map_or_else(|_| toml::Value::String(t.clone()), toml::Value::Float),
        TomlValue::Boolean(b) => toml::Value::Boolean(*b),
        TomlValue::Datetime(d) => toml::Value::Datetime(to_toml_datetime(d)),
        TomlValue::Array(a) => toml::Value::Array(a.iter().map(to_toml_value).collect()),
        TomlValue::Table(t) => toml::Value::Table(t.entries.iter().map(|e| (e.0.clone(), to_toml_value(&e.1))).collect()),
    }
}

/// Calls `to_string` (`Display`) of `toml::value::Datetime`, which writes the
/// parts as `datetime_display` states (`toml_datetime`'s `Display` for
/// `Datetime`, `Date`, `Time` and `Offset`). It cannot fail on a well-formed
/// datetime: the offset is well within `i16` when its sign is turned.
#[verifier::external_body]
pub(crate) fn datetime_to_string(d: &TomlDatetime) -> (s: String)
    ensures
        s@ == datetime_display(d@),
{
    to_toml_datetime(d).to_string()
}

/// Calls `to_string` (`Display`) of `toml::Value`; the result is named
/// `toml_value_text` of the value. That `Display` writes a datetime by
/// reading its own text back, which succeeds for the well-formed datetimes
/// that a `TomlDatetime` holds, so it does not fail.
#[verifier::external_body]
pub(crate) fn value_to_string(v: &TomlValue) -> (s: String)
    ensures
        s@ == toml_value_text(v@),
{
    to_toml_value(v).to_string()
}

/// Builds the datetime with the same parts. The datetimes that `toml` reads
/// are those that `toml_datetime`'s `FromStr` for `Datetime` accepts, and
/// these are the well-formed ones. Nothing is stated of the result.
#[verifier::external_body]
fn from_toml_datetime(d: toml::value::Datetime) -> TomlDatetime {
    TomlDatetime {
        date: d.date.map(|x| TomlDate { year: x.year, month: x.month, day: x.day }),
        time: d.time.map(
            |t| TomlTime { hour: t.hour, minute: t.minute, second: t.second, nanosecond: t.nanosecond },
        ),
        offset: d.offset.map(
            |o| match o {
                toml::value::Offset::Z => TomlOffset::Z,
                toml::value::Offset::Custom { minutes } => TomlOffset::Custom(minutes),
            },
        ),
    }
}

/// Builds the value with the same content; a float is kept as the text of
/// its `to_string`. Nothing is stated of the result.
#[verifier::external_body]
fn from_toml_value(v: toml::Value) -> TomlValue {
    match v {
        toml::Value::String(s) => TomlValue::String(s),
        toml::Value::Integer(n) => TomlValue::Integer(n),
        toml::Value::Float(f) => TomlValue::Float(f.to_string()),
        toml::Value::Boolean(b) => TomlValue::Boolean(b),
        toml::Value::Datetime(d) => TomlValue::Datetime(from_toml_datetime(d)),
        toml::Value::Array(a) => TomlValue::Array(a.into_iter().map(from_toml_value).collect()),
        toml::Value::Table(t) => TomlValue::Table(from_toml_table(t)),
    }
}

/// Builds the table with the same entries. Nothing is stated of the result.
#[verifier::external_body]
fn from_toml_table(t: toml::Table) -> TomlTable {
    let mut table = TomlTable::new();
    for (k, v) in t {
        table.insert(k, from_toml_value(v));
    }
    table
}

/// A character of a bare TOML key: a letter of `A` to `Z` or `a` to `z`, a
/// digit, `_` or `-`.
pub open spec fn bare_key_char(c: char) -> bool {
    ||| 'A' <= c <= 'Z'
    ||| 'a' <= c <= 'z'
    ||| '0' <= c <= '9'
    ||| c == '_'
    ||| c == '-'
}

/// A key that TOML takes as it stands, without quotes.
pub open spec fn bare_key(k: Seq<char>) -> bool {
    k.len() > 0 && forall|i: int| 0 <= i < k.len() ==> bare_key_char(#[trigger] k[i])
}

/// A character that a basic TOML string holds as it stands: neither a quote
/// nor a backslash nor a control character.
pub open spec fn plain_string_char(c: char) -> bool {
    c != '"' && c != '\\' && (c as int) >= 0x20 && (c as int) != 0x7f
}

/// The TOML literal of a boolean, an integer, or a string whose characters
/// need no escape: `true` or `false`, the decimal notation, the characters
/// between double quotes; `None` for the other values.
pub open spec fn scalar_literal(v: ValueView) -> Option<Seq<char>> {
    match v {
        ValueView::Boolean(b) => Some(bool_text(b)),
        ValueView::Integer(n) => Some(int_decimal(n as int)),
        ValueView::String(s) => if forall|i: int| 0 <= i < s.len() ==> plain_string_char(#[trigger] s[i]) {
            Some("\""@ + s + "\""@)
        } else {
            None
        },
        _ => None,
    }
}

/// The line of a TOML document that binds the key to the literal.
pub open spec fn key_value_line(k: Seq<char>, literal: Seq<char>) -> Seq<char> {
    k + " = "@ + literal + "\n"@
}

/// Calls `str::parse::<toml::Table>` (`toml::from_str`) on the text of a TOML
/// document: the table it reads is named `toml_document` of the text, and
/// the message of its error `toml_parse_message` of the text. A document of
/// one line that binds a bare key to a boolean, an integer or a plain
/// string is read as the table of that one entry, the value kept as it was
/// written, as the TOML specification that the crate implements says.
#[verifier::external_body]
pub(crate) fn parse_toml_table(src: &str) -> (r: Result<TomlTable, String>)
    ensures
        match r {
            Ok(t) => toml_document(src@) == Some(t@),
            Err(e) => toml_document(src@) is None && e@ == toml_parse_message(src@),
        },
        forall|k: Seq<char>, v: ValueView|
            #![trigger bare_key(k), scalar_literal(v)]
            bare_key(k) && scalar_literal(v) is Some && src@ == key_value_line(k, scalar_literal(v)->0)
                ==> r is Ok && r->Ok_0@ == seq![(k, v)],
{
    src.parse::<toml::Table>().map(from_toml_table).map_err(|e| e.to_string())
}

} // verus!
