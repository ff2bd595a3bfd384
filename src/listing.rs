use vstd::prelude::*;
use vstd::string::StrSliceExecFns;
use vstd::string::StringExecFns;

use crate::table::{EntryTable, RecordView};

verus! {

/// The lower-case hexadecimal digit for `d` in `0..16`.
pub open spec fn hex_char(d: int) -> char {
    if d < 10 {
        (48 + d) as char
    } else {
        (87 + d) as char
    }
}

/// How one character of a name is written inside a JSON string.
pub open spec fn escape_char(c: char) -> Seq<char> {
    if c == '"' {
        seq!['\\', '"']
    } else if c == '\\' {
        seq!['\\', '\\']
    } else if (c as u32) < 32 {
        seq!['\\', 'u', '0', '0', hex_char((c as u32) as int / 16), hex_char((c as u32) as int % 16)]
    } else {
        seq![c]
    }
}

/// A name written as the body of a JSON string.
pub open spec fn escape(s: Seq<char>) -> Seq<char>
    decreases s.len(),
{
    if s.len() == 0 {
        Seq::empty()
    } else {
        escape(s.drop_last()) + escape_char(s.last())
    }
}

/// The decimal digits of `n`, most significant first, without leading zeros.
pub open spec fn decimal(n: nat) -> Seq<char>
    decreases n,
{
    if n < 10 {
        seq![hex_char(n as int)]
    } else {
        decimal(n / 10) + seq![hex_char((n % 10) as int)]
    }
}

/// One entry of the listing: `{"name":"<path>","size":<size>}`.
pub open spec fn entry_json(e: RecordView) -> Seq<char> {
    "{\"name\":\""@ + escape(e.0) + "\",\"size\":"@ + decimal(e.2 as nat) + "}"@
}

/// The entries' objects, separated by commas, in table order.
pub open spec fn entries_json(es: Seq<RecordView>) -> Seq<char>
    decreases es.len(),
{
    if es.len() == 0 {
        Seq::empty()
    } else if es.len() == 1 {
        entry_json(es[0])
    } else {
        entries_json(es.drop_last()) + ","@ + entry_json(es.last())
    }
}

/// The listing export: a JSON array with one object per entry.
pub open spec fn listing_json(es: Seq<RecordView>) -> Seq<char> {
    "["@ + entries_json(es) + "]"@
}

/// The one-character string for the hexadecimal digit `d`.
fn hex_str(d: u32) -> (r: &'static str)
    requires
        d < 16,
    ensures
        r@ == seq![hex_char(d as int)],
{
    proof {
        reveal_strlit("0");
        reveal_strlit("1");
        reveal_strlit("2");
        reveal_strlit("3");
        reveal_strlit("4");
        reveal_strlit("5");
        reveal_strlit("6");
        reveal_strlit("7");
        reveal_strlit("8");
        reveal_strlit("9");
        reveal_strlit("a");
        reveal_strlit("b");
        reveal_strlit("c");
        reveal_strlit("d");
        reveal_strlit("e");
        reveal_strlit("f");
    }
    match d {
        0 => "0",
        1 => "1",
        2 => "2",
        3 => "3",
        4 => "4",
        5 => "5",
        6 => "6",
        7 => "7",
        8 => "8",
        9 => "9",
        10 => "a",
        11 => "b",
        12 => "c",
        13 => "d",
        14 => "e",
        _ => "f",
    }
}

/// Appends the decimal digits of `n`.
fn push_decimal(out: &mut String, n: u64)
    ensures
        final(out)@ == old(out)@ + decimal(n as nat),
    decreases n,
{
    if n >= 10 {
        push_decimal(out, n / 10);
    }
    let d = (n % 10) as u32;
    out.append(hex_str(d));
    assert(final(out)@ =~= old(out)@ + decimal(n as nat));
}

/// Appends `name` written as the body of a JSON string.
fn push_escaped(out: &mut String, name: &str)
    ensures
        final(out)@ == old(out)@ + escape(name@),
{
    let n = name.unicode_len();
    let mut i: usize = 0;
    while i < n
        invariant
            n == name@.len(),
            i <= n,
            out@ == old(out)@ + escape(name@.subrange(0, i as int)),
        decreases n - i,
    {
        let c = name.get_char(i);
        let ghost before = out@;
        proof {
            reveal_strlit("\\\"");
            reveal_strlit("\\\\");
            reveal_strlit("\\u00");
        }
        if c == '"' {
            out.append("\\\"");
        } else if c == '\\' {
            out.append("\\\\");
        } else if (c as u32) < 32 {
            out.append("\\u00");
            out.append(hex_str((c as u32) / 16));
            out.append(hex_str((c as u32) % 16));
        } else {
            out.append(name.substring_char(i, i + 1));
        }
        proof {
            let s = name@.subrange(0, i + 1);
            assert(s.drop_last() =~= name@.subrange(0, i as int));
            assert(s.last() == c);
            assert(out@ =~= before + escape_char(c));
        }
        i = i + 1;
    }
    assert(name@.subrange(0, n as int) =~= name@);
}

/// Appends the object that lists one entry.
fn push_entry(out: &mut String, path: &String, size: u64)
    ensures
        final(out)@ == old(out)@ + entry_json((path@, 0, size)),
{
    out.append("{\"name\":\"");
    push_escaped(out, path.as_str());
    out.append("\",\"size\":");
    push_decimal(out, size);
    out.append("}");
    assert(final(out)@ =~= old(out)@ + entry_json((path@, 0, size)));
}

proof fn lemma_entry_json_ignores_offset(e: RecordView, o: u64)
    ensures
        entry_json(e) == entry_json((e.0, o, e.2)),
{
}

impl EntryTable {
    /// The listing export of the table: a JSON array of
    /// `{"name": <path>, "size": <size>}` objects, one per entry, in table order.
    pub fn listing_json(&self) -> (r: String)
        ensures
            r@ == listing_json(self@),
    {
        let records = self.entries();
        let ghost es = self@;
        let mut out = String::from_str("[");
        let n = records.len();
        let mut i: usize = 0;
        while i < n
            invariant
                n == es.len(),
                es == crate::table::records_view(records@),
                i <= n,
                out@ == "["@ + entries_json(es.subrange(0, i as int)),
            decreases n - i,
        {
            let ghost before = out@;
            if i > 0 {
                out.append(",");
            }
            let rec = &records[i];
            push_entry(&mut out, &rec.path, rec.size);
            proof {
                let s = es.subrange(0, i + 1);
                assert(s.drop_last() =~= es.subrange(0, i as int));
                assert(s.last() == es[i as int]);
                lemma_entry_json_ignores_offset(es[i as int], 0);
                if i == 0 {
                    assert(es.subrange(0, 0) =~= Seq::<RecordView>::empty());
                    assert(out@ =~= "["@ + entries_json(s));
                } else {
                    assert(out@ =~= "["@ + entries_json(s));
                }
            }
            i = i + 1;
        }
        assert(es.subrange(0, n as int) =~= es);
        out.append("]");
        out
    }
}

} // verus!
