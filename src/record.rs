use vstd::prelude::*;

use crate::text::{chars_of, string_from_chars};

verus! {

/// One document of the corpus.
#[derive(Clone, Debug, Hash)]
pub struct Record {
    pub id: u32,
    pub title: String,
    pub text: String,
    pub label: u32,
}

impl Record {
    /// The text that a record is indexed under: its text, a space, its title.
    pub open spec fn combined(&self) -> Seq<char> {
        self.text@ + seq![' '] + self.title@
    }

    /// A copy of the record.
    pub fn duplicate(&self) -> (r: Record)
        ensures
            r == *self,
    {
        Record { id: self.id, title: self.title.clone(), text: self.text.clone(), label: self.label }
    }

    /// The text that a record is indexed under, as a string.
    pub fn combined_text(&self) -> (r: String)
        ensures
            r@ == self.combined(),
    {
        let mut cs = chars_of(self.text.as_str());
        cs.push(' ');
        let title = chars_of(self.title.as_str());
        for i in 0..title.len()
            invariant
                cs@ == self.text@ + seq![' '] + title@.take(i as int),
        {
            cs.push(title[i]);
        }
        assert(title@.take(title.len() as int) =~= title@);
        string_from_chars(cs.as_slice())
    }
}


/// The decimal digit for `d < 10`.
pub open spec fn digit(d: nat) -> char {
    seq!['0', '1', '2', '3', '4', '5', '6', '7', '8', '9'][d as int]
}

/// The decimal form of `n`, without leading zeros.
pub open spec fn decimal(n: nat) -> Seq<char>
    decreases n,
{
    if n < 10 {
        seq![digit(n)]
    } else {
        decimal(n / 10).push(digit(n % 10))
    }
}

/// Relies on `u32`'s `Display` through `to_string`: the decimal digits, no leading zeros.
#[verifier::external_body]
pub(crate) fn decimal_string(n: u32) -> (r: String)
    ensures
        r@ == decimal(n as nat),
{
    n.to_string()
}

/// `s` with each straight double quote replaced by a closing curly one.
pub open spec fn escape_quotes(s: Seq<char>) -> Seq<char> {
    s.map_values(|c: char| if c == '"' { '”' } else { c })
}

/// The SQL value tuple of a record: `(id, "title", "text", "label")`, quotes in the text
/// fields escaped.
pub open spec fn db_string(r: Record) -> Seq<char> {
    seq!['('] + decimal(r.id as nat) + seq![',', ' ', '"'] + escape_quotes(r.title@) + seq![
        '"',
        ',',
        ' ',
        '"',
    ] + escape_quotes(r.text@) + seq!['"', ',', ' ', '"'] + decimal(r.label as nat) + seq!['"', ')']
}

/// Appends the characters of `s`.
pub(crate) fn append_chars(out: &mut Vec<char>, s: &str)
    ensures
        final(out)@ == old(out)@ + s@,
{
    let cs = chars_of(s);
    let ghost start = out@;
    for i in 0..cs.len()
        invariant
            cs@ == s@,
            out@ == start + cs@.take(i as int),
    {
        out.push(cs[i]);
        assert(out@ =~= start + cs@.take(i + 1));
    }
    assert(cs@.take(cs.len() as int) =~= cs@);
}

/// Appends `s` with its straight double quotes escaped.
pub(crate) fn append_escaped(out: &mut Vec<char>, s: &str)
    ensures
        final(out)@ == old(out)@ + escape_quotes(s@),
{
    let cs = chars_of(s);
    let ghost start = out@;
    for i in 0..cs.len()
        invariant
            cs@ == s@,
            out@ == start + escape_quotes(cs@.take(i as int)),
    {
        let c = cs[i];
        if c == '"' {
            out.push('”');
        } else {
            out.push(c);
        }
        assert(out@ =~= start + escape_quotes(cs@.take(i + 1)));
    }
    assert(cs@.take(cs.len() as int) =~= cs@);
}

impl Record {
    /// The SQL value tuple of the record.
    pub fn to_db_string(&self) -> (r: String)
        ensures
            r@ == db_string(*self),
    {
        let mut out: Vec<char> = Vec::new();
        out.push('(');
        append_chars(&mut out, decimal_string(self.id).as_str());
        out.push(',');
        out.push(' ');
        out.push('"');
        append_escaped(&mut out, self.title.as_str());
        out.push('"');
        out.push(',');
        out.push(' ');
        out.push('"');
        append_escaped(&mut out, self.text.as_str());
        out.push('"');
        out.push(',');
        out.push(' ');
        out.push('"');
        append_chars(&mut out, decimal_string(self.label).as_str());
        out.push('"');
        out.push(')');
        assert(out@ =~= db_string(*self));
        string_from_chars(out.as_slice())
    }
}

/// `h` holds `id` somewhere.
pub open spec fn mentions_id(h: Seq<char>) -> bool {
    exists|i: int| 0 <= i && i + 1 < h.len() && h[i] == 'i' && #[trigger] h[i + 1] == 'd'
}

/// The column definition of header `h` at position `i` of `n`: a first header holding
/// `id` is the integer primary key; the others are text columns, separated by commas.
pub open spec fn column_def(h: Seq<char>, i: int, n: int) -> Seq<char> {
    if i == 0 && mentions_id(h) {
        h + " INTEGER PRIMARY KEY NOT NULL, "@
    } else if i != n - 1 {
        h + " TEXT"@ + ", "@
    } else {
        h + " TEXT"@
    }
}

/// The column definitions of the first `k` of the headers `hs`.
pub open spec fn columns(hs: Seq<Seq<char>>, k: int) -> Seq<char>
    decreases k,
{
    if k <= 0 {
        Seq::empty()
    } else {
        columns(hs, k - 1) + column_def(hs[k - 1], k - 1, hs.len() as int)
    }
}

/// The statement that creates table `name` with columns `hs`.
pub open spec fn create_statement(name: Seq<char>, hs: Seq<Seq<char>>) -> Seq<char> {
    "CREATE TABLE IF NOT EXISTS "@ + name + " ("@ + columns(hs, hs.len() as int) + ");"@
}

/// The statement that inserts the value tuple `v` into table `name`.
pub open spec fn insert_statement(name: Seq<char>, v: Seq<char>) -> Seq<char> {
    "INSERT INTO "@ + name + " VALUES "@ + " "@ + v + ";"@
}

/// Whether `h` holds `id`.
fn has_id(h: &str) -> (r: bool)
    ensures
        r == mentions_id(h@),
{
    let cs = chars_of(h);
    if cs.len() < 2 {
        return false;
    }
    for i in 0..cs.len() - 1
        invariant
            cs@ == h@,
            cs.len() >= 2,
            forall|j: int| 0 <= j < i ==> !(cs@[j] == 'i' && #[trigger] cs@[j + 1] == 'd'),
    {
        if cs[i] == 'i' && cs[i + 1] == 'd' {
            return true;
        }
    }
    false
}

/// The statement that creates table `table_name` with the columns `table_headers`, and one
/// insert statement for each value tuple of `values`.
pub fn build_table_creation_commands(table_name: &str, table_headers: &Vec<&str>, values: &Vec<String>) -> (r: (String, Vec<String>))
    ensures
        r.0@ == create_statement(table_name@, table_headers@.map_values(|h: &str| h@)),
        r.1.len() == values.len(),
        forall|i: int| 0 <= i < values.len() ==> (#[trigger] r.1@[i])@ == insert_statement(table_name@, values@[i]@),
{
    let ghost hs = table_headers@.map_values(|h: &str| h@);
    let n = table_headers.len();
    let mut out: Vec<char> = Vec::new();
    append_chars(&mut out, "CREATE TABLE IF NOT EXISTS ");
    append_chars(&mut out, table_name);
    append_chars(&mut out, " (");
    let ghost head = out@;
    for i in 0..n
        invariant
            n == table_headers.len(),
            hs == table_headers@.map_values(|h: &str| h@),
            out@ == head + columns(hs, i as int),
    {
        let h = table_headers[i];
        assert(hs[i as int] == h@);
        if i == 0 && has_id(h) {
            append_chars(&mut out, h);
            append_chars(&mut out, " INTEGER PRIMARY KEY NOT NULL, ");
        } else {
            append_chars(&mut out, h);
            append_chars(&mut out, " TEXT");
            if i != n - 1 {
                append_chars(&mut out, ", ");
            }
        }
        assert(out@ =~= head + columns(hs, i + 1));
    }
    append_chars(&mut out, ");");
    assert(out@ =~= create_statement(table_name@, hs));
    let creation = string_from_chars(out.as_slice());
    let mut inserts: Vec<String> = Vec::new();
    for i in 0..values.len()
        invariant
            inserts.len() == i,
            forall|k: int| 0 <= k < i ==> (#[trigger] inserts@[k])@ == insert_statement(table_name@, values@[k]@),
    {
        let mut line: Vec<char> = Vec::new();
        append_chars(&mut line, "INSERT INTO ");
        append_chars(&mut line, table_name);
        append_chars(&mut line, " VALUES ");
        append_chars(&mut line, " ");
        append_chars(&mut line, values[i].as_str());
        append_chars(&mut line, ";");
        assert(line@ =~= insert_statement(table_name@, values@[i as int]@));
        inserts.push(string_from_chars(line.as_slice()));
    }
    (creation, inserts)
}

} // verus!
