//! The textual rendering of values.
//!
//! Scalars are written as numbers and quoted text, containers with their
//! elements in order between brackets, a mapping with its entries in the
//! order of its keys. A floating-point number is written
//! as its bit pattern, in hexadecimal.

use crate::model::{InstanceVal, Val};
use crate::value::{values_view, Dict, Instance, Value};
use vstd::prelude::*;

verus! {

/// The numeral of a digit, up to base sixteen.
pub open spec fn digit_text(d: int) -> Seq<char> {
    if d == 0 {
        "0"@
    } else if d == 1 {
        "1"@
    } else if d == 2 {
        "2"@
    } else if d == 3 {
        "3"@
    } else if d == 4 {
        "4"@
    } else if d == 5 {
        "5"@
    } else if d == 6 {
        "6"@
    } else if d == 7 {
        "7"@
    } else if d == 8 {
        "8"@
    } else if d == 9 {
        "9"@
    } else if d == 10 {
        "a"@
    } else if d == 11 {
        "b"@
    } else if d == 12 {
        "c"@
    } else if d == 13 {
        "d"@
    } else if d == 14 {
        "e"@
    } else {
        "f"@
    }
}

/// A natural number in decimal, without leading zeros.
pub open spec fn decimal_text(n: nat) -> Seq<char>
    decreases n,
{
    if n < 10 {
        digit_text(n as int)
    } else {
        decimal_text(n / 10) + digit_text((n % 10) as int)
    }
}

/// A natural number in hexadecimal, in lower case, without leading zeros.
pub open spec fn hex_text(n: nat) -> Seq<char>
    decreases n,
{
    if n < 16 {
        digit_text(n as int)
    } else {
        hex_text(n / 16) + digit_text((n % 16) as int)
    }
}

/// An integer in decimal, with a minus sign where it is negative.
pub open spec fn integer_text(n: int) -> Seq<char> {
    if n < 0 {
        "-"@ + decimal_text((-n) as nat)
    } else {
        decimal_text(n as nat)
    }
}

/// The first `n` bytes in hexadecimal, separated by a comma and a space.
pub open spec fn bytes_text(bytes: Seq<u8>, n: nat) -> Seq<char>
    decreases n,
{
    if n == 0 {
        Seq::empty()
    } else if n == 1 {
        hex_text(bytes[0] as nat)
    } else {
        bytes_text(bytes, (n - 1) as nat) + ", "@ + hex_text(bytes[n - 1] as nat)
    }
}

/// The rendering of a value.
pub open spec fn render(v: Val) -> Seq<char>
    decreases v, 0nat,
{
    match v {
        Val::Bool(b) => if b {
            "True"@
        } else {
            "False"@
        },
        Val::String(s) => "'"@ + s + "'"@,
        Val::Int(i) => integer_text(i as int),
        Val::UInt(u) => integer_text(u as int),
        Val::Long(l) => integer_text(l as int),
        Val::ULong(u) => integer_text(u as int),
        Val::Float(bits) => "float(0x"@ + hex_text(bits as nat) + ")"@,
        Val::Tuple(items) => "("@ + render_items(items, items.len()) + ")"@,
        Val::List(items) => "["@ + render_items(items, items.len()) + "]"@,
        Val::Dict(entries) => "{"@ + render_entries(entries, entries.len()) + "}"@,
        Val::Bytes(bytes) => "["@ + bytes_text(bytes, bytes.len()) + "]"@,
        Val::Object(inst) => render_instance(inst),
        Val::Callable(inst, arg) => "*"@ + inst.key() + "("@ + render(*arg) + ")"@,
        Val::Mark => "Mark"@,
        Val::Nil => "None"@,
    }
}

/// The renderings of the first `n` items, separated by a comma and a space.
pub open spec fn render_items(items: Seq<Val>, n: nat) -> Seq<char>
    decreases items, n,
{
    if n == 0 || n > items.len() {
        Seq::empty()
    } else if n == 1 {
        render(items[0])
    } else {
        render_items(items, (n - 1) as nat) + ", "@ + render(items[n - 1])
    }
}

/// The renderings of the first `n` entries, each as key, colon, value,
/// separated by a comma and a space.
pub open spec fn render_entries(entries: Seq<(Val, Val)>, n: nat) -> Seq<char>
    decreases entries, n,
{
    if n == 0 || n > entries.len() {
        Seq::empty()
    } else if n == 1 {
        render(entries[0].0) + ": "@ + render(entries[0].1)
    } else {
        render_entries(entries, (n - 1) as nat) + ", "@ + render(entries[n - 1].0) + ": "@
            + render(entries[n - 1].1)
    }
}

/// The renderings of the first `n` fields, each as name, colon, value,
/// separated by a comma and a space. A name that is text stands without
/// quotes.
pub open spec fn render_fields(fields: Seq<(Val, Val)>, n: nat) -> Seq<char>
    decreases fields, n,
{
    if n == 0 || n > fields.len() {
        Seq::empty()
    } else if n == 1 {
        render_name(fields[0].0) + ": "@ + render(fields[0].1)
    } else {
        render_fields(fields, (n - 1) as nat) + ", "@ + render_name(fields[n - 1].0) + ": "@
            + render(fields[n - 1].1)
    }
}

/// The rendering of a field name.
pub open spec fn render_name(name: Val) -> Seq<char>
    decreases name, 1nat,
{
    match name {
        Val::String(s) => s,
        _ => render(name),
    }
}

/// The rendering of an object placeholder.
pub open spec fn render_instance(inst: InstanceVal) -> Seq<char>
    decreases inst,
{
    "<"@ + inst.key() + " object> (fields: {"@ + render_fields(inst.fields, inst.fields.len())
        + "}, args: ("@ + render_items(inst.args, inst.args.len()) + "), kwargs: "@ + (
    match inst.kwargs {
        Some(entries) => "{"@ + render_entries(entries, entries.len()) + "}"@,
        None => "None"@,
    }) + ")"@
}

/// The numeral of a digit.
fn digit_str(d: u8) -> (s: &'static str)
    requires
        d < 16,
    ensures
        s@ == digit_text(d as int),
{
    if d == 0 {
        "0"
    } else if d == 1 {
        "1"
    } else if d == 2 {
        "2"
    } else if d == 3 {
        "3"
    } else if d == 4 {
        "4"
    } else if d == 5 {
        "5"
    } else if d == 6 {
        "6"
    } else if d == 7 {
        "7"
    } else if d == 8 {
        "8"
    } else if d == 9 {
        "9"
    } else if d == 10 {
        "a"
    } else if d == 11 {
        "b"
    } else if d == 12 {
        "c"
    } else if d == 13 {
        "d"
    } else if d == 14 {
        "e"
    } else {
        "f"
    }
}

/// Appends a natural number in decimal.
pub fn push_decimal(out: &mut String, n: u128)
    ensures
        final(out)@ == old(out)@ + decimal_text(n as nat),
    decreases n,
{
    if n >= 10 {
        push_decimal(out, n / 10);
    }
    out.append(digit_str((n % 10) as u8));
    assert(out@ =~= old(out)@ + decimal_text(n as nat));
}

/// Appends a natural number in hexadecimal.
pub fn push_hex(out: &mut String, n: u128)
    ensures
        final(out)@ == old(out)@ + hex_text(n as nat),
    decreases n,
{
    if n >= 16 {
        push_hex(out, n / 16);
    }
    out.append(digit_str((n % 16) as u8));
    assert(out@ =~= old(out)@ + hex_text(n as nat));
}

/// Appends an integer in decimal.
pub fn push_integer(out: &mut String, n: i128)
    ensures
        final(out)@ == old(out)@ + integer_text(n as int),
{
    if n < 0 {
        out.append("-");
        let magnitude: u128 = ((-(n + 1)) as u128) + 1;
        push_decimal(out, magnitude);
        assert(out@ =~= old(out)@ + integer_text(n as int));
    } else {
        push_decimal(out, n as u128);
    }
}

/// Appends bytes in hexadecimal, separated by a comma and a space.
pub fn push_bytes(out: &mut String, bytes: &Vec<u8>)
    ensures
        final(out)@ == old(out)@ + bytes_text(bytes@, bytes@.len()),
{
    let mut i: usize = 0;
    assert(out@ =~= old(out)@ + bytes_text(bytes@, 0));
    while i < bytes.len()
        invariant
            i <= bytes.len(),
            out@ == old(out)@ + bytes_text(bytes@, i as nat),
        decreases bytes.len() - i,
    {
        let ghost before = out@;
        if i > 0 {
            out.append(", ");
        }
        push_hex(out, bytes[i] as u128);
        i += 1;
        assert(out@ =~= old(out)@ + bytes_text(bytes@, i as nat));
    }
}

/// Appends the renderings of values, separated by a comma and a space.
pub fn push_items(out: &mut String, items: &Vec<Value>)
    ensures
        final(out)@ == old(out)@ + render_items(values_view(items@), items@.len()),
    decreases items, 1nat,
{
    let ghost models = values_view(items@);
    let mut i: usize = 0;
    assert(out@ =~= old(out)@ + render_items(models, 0));
    while i < items.len()
        invariant
            i <= items.len(),
            models == values_view(items@),
            out@ == old(out)@ + render_items(models, i as nat),
        decreases items.len() - i,
    {
        if i > 0 {
            out.append(", ");
        }
        items[i].render_into(out);
        i += 1;
        assert(out@ =~= old(out)@ + render_items(models, i as nat));
    }
}

impl Dict {
    /// Appends the renderings of the entries, each as key, colon, value,
    /// separated by a comma and a space.
    pub fn render_into(&self, out: &mut String)
        ensures
            final(out)@ == old(out)@ + render_entries(self@, self@.len()),
        decreases self, 1nat,
    {
        let n = self.len();
        let mut i: usize = 0;
        assert(out@ =~= old(out)@ + render_entries(self@, 0));
        while i < n
            invariant
                i <= n,
                n == self@.len(),
                out@ == old(out)@ + render_entries(self@, i as nat),
            decreases n - i,
        {
            if i > 0 {
                out.append(", ");
            }
            self.key_at(i).render_into(out);
            out.append(": ");
            self.value_at(i).render_into(out);
            i += 1;
            assert(out@ =~= old(out)@ + render_entries(self@, i as nat));
        }
    }

    /// Appends the renderings of the entries as fields, each as name, colon,
    /// value, separated by a comma and a space.
    pub fn render_fields_into(&self, out: &mut String)
        ensures
            final(out)@ == old(out)@ + render_fields(self@, self@.len()),
        decreases self, 1nat,
    {
        let n = self.len();
        let mut i: usize = 0;
        assert(out@ =~= old(out)@ + render_fields(self@, 0));
        while i < n
            invariant
                i <= n,
                n == self@.len(),
                out@ == old(out)@ + render_fields(self@, i as nat),
            decreases n - i,
        {
            if i > 0 {
                out.append(", ");
            }
            let ghost name = self@[i as int].0;
            match self.key_at(i) {
                Value::String(text) => {
                    out.append(text.as_str());
                },
                other => {
                    other.render_into(out);
                },
            }
            assert(out@ =~= old(out)@ + render_fields(self@, i as nat) + (if i > 0 {
                ", "@
            } else {
                Seq::empty()
            }) + render_name(name));
            out.append(": ");
            self.value_at(i).render_into(out);
            i += 1;
            assert(out@ =~= old(out)@ + render_fields(self@, i as nat));
        }
    }
}

impl Instance {
    /// The fields, each as name, colon, value, separated by a comma and a
    /// space, in the order of their names.
    pub fn fields_to_string(&self) -> (s: String)
        ensures
            s@ == render_fields(self@.fields, self@.fields.len()),
    {
        let mut out = String::new();
        self.fields().render_fields_into(&mut out);
        assert(out@ =~= render_fields(self@.fields, self@.fields.len()));
        out
    }

    /// Appends the head of the rendering of the placeholder: the type and
    /// the fields.
    fn render_head_into(&self, out: &mut String)
        ensures
            final(out)@ == old(out)@ + ("<"@ + self@.key() + " object> (fields: {"@
                + render_fields(self@.fields, self@.fields.len())),
        decreases self, 2nat,
    {
        out.append("<");
        out.append(self.as_key().as_str());
        out.append(" object> (fields: {");
        assert(out@ =~= old(out)@ + ("<"@ + self@.key() + " object> (fields: {"@));
        self.fields().render_fields_into(out);
        assert(out@ =~= old(out)@ + ("<"@ + self@.key() + " object> (fields: {"@
            + render_fields(self@.fields, self@.fields.len())));
    }

    /// Appends the rendering of the keyword arguments.
    fn render_kwargs_into(&self, out: &mut String)
        ensures
            final(out)@ == old(out)@ + (match self@.kwargs {
                Some(entries) => "{"@ + render_entries(entries, entries.len()) + "}"@,
                None => "None"@,
            }),
        decreases self, 2nat,
    {
        match self.kwargs() {
            Some(entries) => {
                out.append("{");
                entries.render_into(out);
                out.append("}");
                assert(out@ =~= old(out)@ + ("{"@ + render_entries(entries@, entries@.len())
                    + "}"@));
            },
            None => {
                out.append("None");
            },
        }
    }

    /// Appends the rendering of the placeholder.
    pub fn render_into(&self, out: &mut String)
        ensures
            final(out)@ == old(out)@ + render_instance(self@),
        decreases self, 3nat,
    {
        let ghost head = "<"@ + self@.key() + " object> (fields: {"@ + render_fields(
            self@.fields,
            self@.fields.len(),
        );
        let ghost args = render_items(self@.args, self@.args.len());
        let ghost kwargs = match self@.kwargs {
            Some(entries) => "{"@ + render_entries(entries, entries.len()) + "}"@,
            None => "None"@,
        };
        self.render_head_into(out);
        out.append("}, args: (");
        push_items(out, self.args());
        assert(out@ =~= old(out)@ + (head + "}, args: ("@ + args));
        out.append("), kwargs: ");
        self.render_kwargs_into(out);
        assert(out@ =~= old(out)@ + (head + "}, args: ("@ + args + "), kwargs: "@ + kwargs));
        out.append(")");
        assert(out@ =~= old(out)@ + (head + "}, args: ("@ + args + "), kwargs: "@ + kwargs
            + ")"@));
    }
}

/// Appends text between quotes.
fn push_quoted(out: &mut String, text: &str)
    ensures
        final(out)@ == old(out)@ + render(Val::String(text@)),
{
    out.append("'");
    out.append(text);
    out.append("'");
    assert(out@ =~= old(out)@ + render(Val::String(text@)));
}

/// Appends the bit pattern of a floating-point number.
fn push_float(out: &mut String, bits: u64)
    ensures
        final(out)@ == old(out)@ + render(Val::Float(bits)),
{
    out.append("float(0x");
    push_hex(out, bits as u128);
    out.append(")");
    assert(out@ =~= old(out)@ + render(Val::Float(bits)));
}

/// Appends a byte string.
fn push_byte_string(out: &mut String, bytes: &Vec<u8>)
    ensures
        final(out)@ == old(out)@ + render(Val::Bytes(bytes@)),
{
    out.append("[");
    push_bytes(out, bytes);
    out.append("]");
    assert(out@ =~= old(out)@ + render(Val::Bytes(bytes@)));
}

impl Value {
    /// Appends the rendering of the value.
    pub fn render_into(&self, out: &mut String)
        ensures
            final(out)@ == old(out)@ + render(self@),
        decreases self, 4nat,
    {
        match self {
            Value::Bool(b) => {
                if *b {
                    out.append("True");
                } else {
                    out.append("False");
                }
            },
            Value::String(s) => push_quoted(out, s.as_str()),
            Value::Int(i) => push_integer(out, *i as i128),
            Value::UInt(u) => push_integer(out, *u as i128),
            Value::Long(l) => push_integer(out, *l),
            Value::ULong(u) => push_decimal(out, *u),
            Value::Float(bits) => push_float(out, *bits),
            Value::Tuple(items) => {
                out.append("(");
                push_items(out, items);
                out.append(")");
                assert(out@ =~= old(out)@ + render(self@));
            },
            Value::List(items) => {
                out.append("[");
                push_items(out, items);
                out.append("]");
                assert(out@ =~= old(out)@ + render(self@));
            },
            Value::Dict(d) => {
                out.append("{");
                d.render_into(out);
                out.append("}");
                assert(out@ =~= old(out)@ + render(self@));
            },
            Value::Bytes(bytes) => push_byte_string(out, bytes),
            Value::Object(inst) => inst.render_into(out),
            Value::Callable(inst, arg) => {
                out.append("*");
                out.append(inst.as_key().as_str());
                out.append("(");
                arg.render_into(out);
                out.append(")");
                assert(out@ =~= old(out)@ + render(self@));
            },
            Value::Mark => {
                out.append("Mark");
            },
            Value::Nil => {
                out.append("None");
            },
        }
    }

    /// The rendering of the value.
    pub fn to_string(&self) -> (s: String)
        ensures
            s@ == render(self@),
    {
        let mut out = String::new();
        self.render_into(&mut out);
        assert(out@ =~= render(self@));
        out
    }
}

} // verus!
