use vstd::prelude::*;
use vstd::string::StrSliceExecFns;
use vstd::string::StringExecFns;
use crate::model::{Hierarchy, MetaData, MetaDataSet, MetaView};

verus! {

/// Relies on String::push: appends the given char to the end of the string.
pub assume_specification[ String::push ](s: &mut String, ch: char)
    ensures
        final(s)@ == old(s)@.push(ch),
;

/// The decimal digit `d` as a character.
pub open spec fn dec_digit(d: nat) -> char {
    if d == 0 {
        '0'
    } else if d == 1 {
        '1'
    } else if d == 2 {
        '2'
    } else if d == 3 {
        '3'
    } else if d == 4 {
        '4'
    } else if d == 5 {
        '5'
    } else if d == 6 {
        '6'
    } else if d == 7 {
        '7'
    } else if d == 8 {
        '8'
    } else {
        '9'
    }
}

/// The decimal notation of `n`, most significant digit first, without
/// leading zeros (a single zero for zero itself).
pub open spec fn dec_of(n: nat) -> Seq<char>
    decreases n,
{
    if n < 10 {
        seq![dec_digit(n)]
    } else {
        dec_of(n / 10).push(dec_digit(n % 10))
    }
}

/// The hexadecimal digit `d` as a lower-case character.
pub open spec fn hex_digit(d: nat) -> char {
    if d < 10 {
        dec_digit(d)
    } else if d == 10 {
        'a'
    } else if d == 11 {
        'b'
    } else if d == 12 {
        'c'
    } else if d == 13 {
        'd'
    } else if d == 14 {
        'e'
    } else {
        'f'
    }
}

/// How one character is written inside a JSON string literal: quotes and
/// backslashes are escaped, control characters take the four-digit escape,
/// everything else stands as itself.
pub open spec fn esc_char(c: char) -> Seq<char> {
    if c == '"' {
        "\\\""@
    } else if c == '\\' {
        "\\\\"@
    } else if (c as nat) < 32 {
        "\\u00"@ + seq![hex_digit((c as nat) / 16), hex_digit((c as nat) % 16)]
    } else {
        seq![c]
    }
}

/// A character sequence written inside a JSON string literal.
pub open spec fn json_escaped(s: Seq<char>) -> Seq<char>
    decreases s.len(),
{
    if s.len() == 0 {
        Seq::empty()
    } else {
        json_escaped(s.drop_last()) + esc_char(s.last())
    }
}

fn digit_char(d: u64) -> (c: char)
    requires
        d < 10,
    ensures
        c == dec_digit(d as nat),
{
    match d {
        0 => '0',
        1 => '1',
        2 => '2',
        3 => '3',
        4 => '4',
        5 => '5',
        6 => '6',
        7 => '7',
        8 => '8',
        _ => '9',
    }
}

fn hex_char(d: u64) -> (c: char)
    requires
        d < 16,
    ensures
        c == hex_digit(d as nat),
{
    match d {
        0 => '0',
        1 => '1',
        2 => '2',
        3 => '3',
        4 => '4',
        5 => '5',
        6 => '6',
        7 => '7',
        8 => '8',
        9 => '9',
        10 => 'a',
        11 => 'b',
        12 => 'c',
        13 => 'd',
        14 => 'e',
        _ => 'f',
    }
}

/// Append the decimal notation of `n`.
fn push_u64(out: &mut String, n: u64)
    ensures
        final(out)@ == old(out)@ + dec_of(n as nat),
    decreases n,
{
    if n < 10 {
        out.push(digit_char(n));
        proof {
            assert(out@ =~= old(out)@ + dec_of(n as nat));
        }
    } else {
        assert(n / 10 < n);
        push_u64(out, n / 10);
        out.push(digit_char(n % 10));
        proof {
            assert(out@ =~= old(out)@ + dec_of(n as nat));
        }
    }
}

/// Append `s` as it is written inside a JSON string literal.
fn push_escaped(out: &mut String, s: &str)
    ensures
        final(out)@ == old(out)@ + json_escaped(s@),
{
    let n = s.unicode_len();
    let mut i: usize = 0;
    proof {
        assert(s@.take(0) =~= Seq::<char>::empty());
        assert(out@ =~= old(out)@ + json_escaped(s@.take(0)));
    }
    while i < n
        invariant
            i <= n,
            n == s@.len(),
            out@ == old(out)@ + json_escaped(s@.take(i as int)),
        decreases n - i,
    {
        let c = s.get_char(i);
        if c == '"' {
            out.append("\\\"");
        } else if c == '\\' {
            out.append("\\\\");
        } else if (c as u32) < 32 {
            out.append("\\u00");
            out.push(hex_char(((c as u32) / 16) as u64));
            out.push(hex_char(((c as u32) % 16) as u64));
        } else {
            out.push(c);
        }
        proof {
            assert(s@.take(i as int + 1).drop_last() =~= s@.take(i as int));
            assert(s@.take(i as int + 1).last() == s@[i as int]);
            assert(out@ =~= old(out)@ + json_escaped(s@.take(i as int + 1)));
        }
        i += 1;
    }
    proof {
        assert(s@.take(n as int) =~= s@);
    }
}

/// One revision as a JSON object.
pub open spec fn json_of_rev(m: MetaView) -> Seq<char> {
    "{\"timestamp\":"@ + dec_of(m.timestamp as nat) + ",\"size\":"@ + dec_of(m.size as nat)
        + ",\"hash\":\""@ + json_escaped(m.hash) + "\",\"stored_hash\":\""@ + json_escaped(
        m.stored_hash,
    ) + "\"}"@
}

/// A revision history as the comma-separated elements of a JSON array, in
/// commit order.
pub open spec fn json_of_revs(revs: Seq<MetaView>) -> Seq<char>
    decreases revs.len(),
{
    if revs.len() == 0 {
        Seq::empty()
    } else if revs.len() == 1 {
        json_of_rev(revs[0])
    } else {
        json_of_revs(revs.drop_last()) + ","@ + json_of_rev(revs.last())
    }
}

/// One tracked file as a JSON object member: the name as the key, the
/// history under a `revisions` field.
pub open spec fn json_of_entry(name: Seq<char>, revs: Seq<MetaView>) -> Seq<char> {
    "\""@ + json_escaped(name) + "\":{\"revisions\":["@ + json_of_revs(revs) + "]}"@
}

/// All tracked files as the comma-separated members of a JSON object, in
/// ledger order.
pub open spec fn json_of_files(files: Seq<(Seq<char>, Seq<MetaView>)>) -> Seq<char>
    decreases files.len(),
{
    if files.len() == 0 {
        Seq::empty()
    } else if files.len() == 1 {
        json_of_entry(files[0].0, files[0].1)
    } else {
        json_of_files(files.drop_last()) + ","@ + json_of_entry(
            files.last().0,
            files.last().1,
        )
    }
}

/// The persisted form of a whole ledger: the revision counter and, per
/// tracked filename, its revision history.
pub open spec fn json_of_hierarchy(nb: nat, files: Seq<(Seq<char>, Seq<MetaView>)>) -> Seq<
    char,
> {
    "{\"revision_count\":"@ + dec_of(nb) + ",\"files\":{"@ + json_of_files(files) + "}}"@
}

fn push_rev(out: &mut String, m: &MetaData)
    ensures
        final(out)@ == old(out)@ + json_of_rev(m@),
{
    out.append("{\"timestamp\":");
    push_u64(out, m.timestamp);
    out.append(",\"size\":");
    push_u64(out, m.size);
    out.append(",\"hash\":\"");
    push_escaped(out, m.hash.as_str());
    out.append("\",\"stored_hash\":\"");
    push_escaped(out, m.stored_hash.as_str());
    out.append("\"}");
    proof {
        assert(out@ =~= old(out)@ + json_of_rev(m@));
    }
}

fn push_revs(out: &mut String, set: &MetaDataSet)
    ensures
        final(out)@ == old(out)@ + json_of_revs(set@),
{
    let mut j: usize = 0;
    proof {
        assert(set@.take(0) =~= Seq::<MetaView>::empty());
        assert(out@ =~= old(out)@ + json_of_revs(set@.take(0)));
    }
    while j < set.metadata.len()
        invariant
            j <= set.metadata.len(),
            out@ == old(out)@ + json_of_revs(set@.take(j as int)),
        decreases set.metadata.len() - j,
    {
        proof {
            assert(set@.take(j as int + 1).drop_last() =~= set@.take(j as int));
            assert(set@.take(j as int + 1).last() == set@[j as int]);
        }
        if j > 0 {
            out.append(",");
        }
        push_rev(out, &set.metadata[j]);
        proof {
            assert(out@ =~= old(out)@ + json_of_revs(set@.take(j as int + 1)));
        }
        j += 1;
    }
    proof {
        assert(set@.take(set.metadata@.len() as int) =~= set@);
    }
}

/// Write a ledger in its persisted JSON form: a `revision_count` field and
/// a `files` object holding, per tracked filename, the ordered `revisions`
/// array of `timestamp`, `size`, `hash` and `stored_hash` fields.
pub fn serialize_hierarchy(h: &Hierarchy) -> (r: String)
    requires
        h.wf(),
    ensures
        r@ == json_of_hierarchy(h.nb_revision as nat, h@),
{
    let mut out = String::new();
    out.append("{\"revision_count\":");
    push_u64(&mut out, h.nb_revision as u64);
    out.append(",\"files\":{");
    let ghost mid = out@;
    let mut i: usize = 0;
    proof {
        assert(h@.take(0) =~= Seq::<(Seq<char>, Seq<MetaView>)>::empty());
        assert(out@ =~= mid + json_of_files(h@.take(0)));
    }
    while i < h.files.len()
        invariant
            i <= h.files.len(),
            out@ == mid + json_of_files(h@.take(i as int)),
        decreases h.files.len() - i,
    {
        proof {
            assert(h@.take(i as int + 1).drop_last() =~= h@.take(i as int));
            assert(h@.take(i as int + 1).last() == h@[i as int]);
        }
        if i > 0 {
            out.append(",");
        }
        out.append("\"");
        push_escaped(&mut out, h.files[i].0.as_str());
        out.append("\":{\"revisions\":[");
        push_revs(&mut out, &h.files[i].1);
        out.append("]}");
        proof {
            assert(out@ =~= mid + json_of_files(h@.take(i as int + 1)));
        }
        i += 1;
    }
    proof {
        assert(h@.take(h.files@.len() as int) =~= h@);
    }
    out.append("}}");
    proof {
        assert(out@ =~= Seq::<char>::empty() + json_of_hierarchy(h.nb_revision as nat, h@));
        assert(out@ =~= json_of_hierarchy(h.nb_revision as nat, h@));
    }
    out
}

} // verus!
