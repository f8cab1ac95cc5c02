//! The wire form of the peer set and of the timestamp map.
//!
//! Each collection is one text: every entry is preceded by `|`, and a
//! timestamp entry is a path, a tab and the time in base-10 milliseconds.
//! Nothing is escaped: an address or a path that holds `|` (or, for a
//! path, a tab) does not survive the trip.
use vstd::prelude::*;
use vstd::string::*;

use crate::error::SyncError;
use crate::file_state::{lemma_stamp_map_has_key, stamp_map, FileStateMap};
use crate::registry::PeerRegistry;
use crate::text::{
    decimal, decimal_string, decimal_value, fields, is_decimal, lemma_decimal_round_trip,
    parse_decimal, split_fields, views,
};

verus! {

/// The character that precedes every entry.
pub open spec fn delimiter() -> char {
    '|'
}

/// The character between a path and its time.
pub open spec fn key_val_separator() -> char {
    '\t'
}

/// The non-empty members of `fs`, in order.
pub open spec fn nonempty(fs: Seq<Seq<char>>) -> Seq<Seq<char>>
    decreases fs.len(),
{
    if fs.len() == 0 {
        Seq::empty()
    } else if fs.last().len() > 0 {
        nonempty(fs.drop_last()).push(fs.last())
    } else {
        nonempty(fs.drop_last())
    }
}

/// The entries of a wire text: the non-empty fields between delimiters.
pub open spec fn wire_entries(s: Seq<char>) -> Seq<Seq<char>> {
    nonempty(fields(s, delimiter()))
}

/// The wire form of a list of addresses.
pub open spec fn encode_peer_list(a: Seq<Seq<char>>) -> Seq<char>
    decreases a.len(),
{
    if a.len() == 0 {
        Seq::empty()
    } else {
        encode_peer_list(a.drop_last()) + seq![delimiter()] + a.last()
    }
}

/// One timestamp entry on the wire, without its delimiter.
pub open spec fn encode_stamp_entry(k: Seq<char>, v: u64) -> Seq<char> {
    k + seq![key_val_separator()] + decimal(v as nat)
}

/// The wire form of a list of timestamp entries.
pub open spec fn encode_stamp_list(e: Seq<(Seq<char>, u64)>) -> Seq<char>
    decreases e.len(),
{
    if e.len() == 0 {
        Seq::empty()
    } else {
        encode_stamp_list(e.drop_last()) + seq![delimiter()] + encode_stamp_entry(
            e.last().0,
            e.last().1,
        )
    }
}

/// Reads one timestamp entry: exactly one separator, then a decimal number
/// that fits in a `u64`.
pub open spec fn parse_stamp_entry(e: Seq<char>) -> Option<(Seq<char>, u64)> {
    let fs = fields(e, key_val_separator());
    if fs.len() == 2 && is_decimal(fs[1]) && decimal_value(fs[1]) <= u64::MAX {
        Some((fs[0], decimal_value(fs[1]) as u64))
    } else {
        None
    }
}

/// Reads the entries in turn into a map, a later entry for a path
/// replacing an earlier one; `None` if any entry is malformed.
pub open spec fn parse_stamp_entries(es: Seq<Seq<char>>) -> Option<Map<Seq<char>, u64>>
    decreases es.len(),
{
    if es.len() == 0 {
        Some(Map::empty())
    } else {
        match (parse_stamp_entries(es.drop_last()), parse_stamp_entry(es.last())) {
            (Some(m), Some(kv)) => Some(m.insert(kv.0, kv.1)),
            _ => None,
        }
    }
}

/// The timestamp map that a wire text spells, if it is well formed.
pub open spec fn decode_stamps(s: Seq<char>) -> Option<Map<Seq<char>, u64>> {
    parse_stamp_entries(wire_entries(s))
}

/// An address that the wire form carries intact.
pub open spec fn is_wire_address(a: Seq<char>) -> bool {
    a.len() > 0 && !a.contains(delimiter())
}

/// A path that the wire form carries intact.
pub open spec fn is_wire_path(p: Seq<char>) -> bool {
    !p.contains(delimiter()) && !p.contains(key_val_separator())
}

pub proof fn lemma_fields_single(x: Seq<char>, d: char)
    requires
        !x.contains(d),
    ensures
        fields(x, d) == seq![x],
    decreases x.len(),
{
    if x.len() > 0 {
        assert(!x.drop_last().contains(d)) by {
            if x.drop_last().contains(d) {
                let i = choose|i: int| 0 <= i < x.drop_last().len() && x.drop_last()[i] == d;
                assert(x[i] == d);
            }
        }
        lemma_fields_single(x.drop_last(), d);
        assert(x[x.len() - 1] != d);
        assert(x.drop_last().push(x.last()) =~= x);
        assert(fields(x, d) =~= seq![x]);
    } else {
        assert(x =~= Seq::<char>::empty());
    }
}

/// Appending a delimiter and a field without one adds that field.
pub proof fn lemma_fields_append(p: Seq<char>, d: char, x: Seq<char>)
    requires
        !x.contains(d),
    ensures
        fields(p + seq![d] + x, d) == fields(p, d).push(x),
    decreases x.len(),
{
    let s = p + seq![d] + x;
    if x.len() == 0 {
        assert(s.drop_last() =~= p);
        assert(x =~= Seq::<char>::empty());
    } else {
        assert(!x.drop_last().contains(d)) by {
            if x.drop_last().contains(d) {
                let i = choose|i: int| 0 <= i < x.drop_last().len() && x.drop_last()[i] == d;
                assert(x[i] == d);
            }
        }
        lemma_fields_append(p, d, x.drop_last());
        assert(s.drop_last() =~= p + seq![d] + x.drop_last());
        assert(x[x.len() - 1] != d);
        assert(s.last() == x.last());
        crate::text::lemma_fields_nonempty(p, d);
        assert(x.drop_last().push(x.last()) =~= x);
        assert(fields(s, d) =~= fields(p, d).push(x));
    }
}

/// Dropping the empty fields of one empty field followed by non-empty ones
/// leaves the latter.
pub proof fn lemma_nonempty_after_blank(a: Seq<Seq<char>>)
    requires
        forall|i: int| 0 <= i < a.len() ==> (#[trigger] a[i]).len() > 0,
    ensures
        nonempty(seq![Seq::<char>::empty()] + a) == a,
    decreases a.len(),
{
    let b = seq![Seq::<char>::empty()] + a;
    if a.len() == 0 {
        assert(b.drop_last() =~= Seq::<Seq<char>>::empty());
        assert(b.last().len() == 0);
        assert(nonempty(Seq::<Seq<char>>::empty()) == Seq::<Seq<char>>::empty());
        assert(a =~= Seq::<Seq<char>>::empty());
    } else {
        lemma_nonempty_after_blank(a.drop_last());
        assert(b.drop_last() =~= seq![Seq::<char>::empty()] + a.drop_last());
        assert(a.drop_last().push(a.last()) =~= a);
    }
}

pub proof fn lemma_fields_of_peer_list(a: Seq<Seq<char>>)
    requires
        forall|i: int| 0 <= i < a.len() ==> is_wire_address(#[trigger] a[i]),
    ensures
        fields(encode_peer_list(a), delimiter()) == seq![Seq::<char>::empty()] + a,
    decreases a.len(),
{
    if a.len() == 0 {
        assert(fields(Seq::<char>::empty(), delimiter()) =~= seq![Seq::<char>::empty()]);
        assert(seq![Seq::<char>::empty()] + a =~= seq![Seq::<char>::empty()]);
    } else {
        lemma_fields_of_peer_list(a.drop_last());
        assert(is_wire_address(a[a.len() - 1]));
        lemma_fields_append(encode_peer_list(a.drop_last()), delimiter(), a.last());
        assert(seq![Seq::<char>::empty()] + a =~= (seq![Seq::<char>::empty()] + a.drop_last()).push(
            a.last(),
        ));
    }
}

/// Decoding the encoding of a list of addresses gives the list back, and
/// so the peer set back.
pub proof fn lemma_peer_list_round_trip(a: Seq<Seq<char>>)
    requires
        forall|i: int| 0 <= i < a.len() ==> is_wire_address(#[trigger] a[i]),
    ensures
        wire_entries(encode_peer_list(a)) == a,
{
    lemma_fields_of_peer_list(a);
    lemma_nonempty_after_blank(a);
}

/// The wire form of the peer set decodes to the same set, when no address
/// is empty or holds the delimiter.
pub proof fn peers_round_trip(reg: PeerRegistry)
    requires
        forall|a: Seq<char>| reg@.contains(a) ==> is_wire_address(a),
    ensures
        wire_entries(encode_peer_list(reg.entries())).to_set() == reg@,
{
    let e = reg.entries();
    assert forall|i: int| 0 <= i < e.len() implies is_wire_address(#[trigger] e[i]) by {
        assert(reg@.contains(e[i]));
    }
    lemma_peer_list_round_trip(e);
}

/// Encodes the peer set: `|` before each address.
pub fn serialize_other_nodes(other_nodes: &PeerRegistry) -> (r: String)
    ensures
        r@ == encode_peer_list(other_nodes.entries()),
{
    proof {
        reveal_strlit("|");
    }
    let addrs = other_nodes.addresses();
    let mut out = String::new();
    let mut i: usize = 0;
    assert(other_nodes.entries().take(0) =~= Seq::<Seq<char>>::empty());
    while i < addrs.len()
        invariant
            i <= addrs.len(),
            views(addrs@) == other_nodes.entries(),
            out@ == encode_peer_list(other_nodes.entries().take(i as int)),
        decreases addrs.len() - i,
    {
        let ghost prev = out@;
        let bar = "|";
        proof {
            reveal_strlit("|");
        }
        assert(bar@.len() == 1);
        assert(bar@ =~= seq![delimiter()]);
        out.append(bar);
        out.append(addrs[i].as_str());
        let ghost e = other_nodes.entries();
        assert(e.take(i + 1).last() == e[i as int]);
        assert(e.take(i + 1).drop_last() =~= e.take(i as int));
        assert(addrs[i as int]@ == e[i as int]);
        assert(out@ =~= encode_peer_list(e.take(i + 1)));
        i += 1;
    }
    assert(other_nodes.entries().take(addrs.len() as int) =~= other_nodes.entries());
    out
}

/// Decodes a peer set: the non-empty fields between delimiters, each once.
pub fn deserialize_other_nodes(string: &str) -> (r: PeerRegistry)
    ensures
        r.wf(),
        r@ == wire_entries(string@).to_set(),
{
    let fs = split_fields(string, '|');
    let mut reg = PeerRegistry::new();
    let mut i: usize = 0;
    let ghost all = fields(string@, delimiter());
    assert(all.take(0) =~= Seq::<Seq<char>>::empty());
    while i < fs.len()
        invariant
            i <= fs.len(),
            views(fs@) == all,
            reg.wf(),
            reg@ == nonempty(all.take(i as int)).to_set(),
        decreases fs.len() - i,
    {
        assert(all.take(i + 1).drop_last() =~= all.take(i as int));
        assert(fs[i as int]@ == all[i as int]);
        if fs[i].as_str().unicode_len() > 0 {
            let f = fs[i].clone();
            reg.insert(f);
            proof {
                nonempty(all.take(i as int)).lemma_push_to_set_commute(all[i as int]);
            }
        }
        i += 1;
    }
    assert(all.take(fs.len() as int) =~= all);
    reg
}

/// A timestamp entry holds no delimiter when its path holds none.
pub proof fn lemma_stamp_entry_has_no_delimiter(k: Seq<char>, v: u64)
    requires
        is_wire_path(k),
    ensures
        !encode_stamp_entry(k, v).contains(delimiter()),
        encode_stamp_entry(k, v).len() > 0,
{
    lemma_decimal_round_trip(v as nat);
    let x = encode_stamp_entry(k, v);
    let dd = decimal(v as nat);
    if x.contains(delimiter()) {
        let i = choose|i: int| 0 <= i < x.len() && x[i] == delimiter();
        if i < k.len() {
            assert(x[i] == k[i]);
        } else if i > k.len() {
            assert(x[i] == dd[i - k.len() - 1]);
        }
    }
}

/// A timestamp entry reads back as its path and time.
pub proof fn lemma_stamp_entry_round_trip(k: Seq<char>, v: u64)
    requires
        is_wire_path(k),
    ensures
        parse_stamp_entry(encode_stamp_entry(k, v)) == Some((k, v)),
{
    lemma_decimal_round_trip(v as nat);
    let dd = decimal(v as nat);
    assert(!dd.contains(key_val_separator())) by {
        if dd.contains(key_val_separator()) {
            let i = choose|i: int| 0 <= i < dd.len() && dd[i] == key_val_separator();
            assert(crate::text::is_digit(dd[i]));
        }
    }
    lemma_fields_single(k, key_val_separator());
    lemma_fields_append(k, key_val_separator(), dd);
}

pub proof fn lemma_fields_of_stamp_list(e: Seq<(Seq<char>, u64)>)
    requires
        forall|i: int| 0 <= i < e.len() ==> is_wire_path(#[trigger] e[i].0),
    ensures
        fields(encode_stamp_list(e), delimiter()) == seq![Seq::<char>::empty()] + e.map_values(
            |p: (Seq<char>, u64)| encode_stamp_entry(p.0, p.1),
        ),
    decreases e.len(),
{
    let enc = |p: (Seq<char>, u64)| encode_stamp_entry(p.0, p.1);
    if e.len() == 0 {
        assert(fields(Seq::<char>::empty(), delimiter()) =~= seq![Seq::<char>::empty()]);
        assert(seq![Seq::<char>::empty()] + e.map_values(enc) =~= seq![Seq::<char>::empty()]);
    } else {
        lemma_fields_of_stamp_list(e.drop_last());
        assert(is_wire_path(e[e.len() - 1].0));
        lemma_stamp_entry_has_no_delimiter(e.last().0, e.last().1);
        lemma_fields_append(
            encode_stamp_list(e.drop_last()),
            delimiter(),
            encode_stamp_entry(e.last().0, e.last().1),
        );
        assert(e.map_values(enc) =~= e.drop_last().map_values(enc).push(enc(e.last())));
        assert(seq![Seq::<char>::empty()] + e.map_values(enc) =~= (seq![Seq::<char>::empty()]
            + e.drop_last().map_values(enc)).push(enc(e.last())));
    }
}

pub proof fn lemma_parse_stamp_entries_of_encoded(e: Seq<(Seq<char>, u64)>)
    requires
        forall|i: int| 0 <= i < e.len() ==> is_wire_path(#[trigger] e[i].0),
    ensures
        parse_stamp_entries(e.map_values(|p: (Seq<char>, u64)| encode_stamp_entry(p.0, p.1)))
            == Some(stamp_map(e)),
    decreases e.len(),
{
    let enc = |p: (Seq<char>, u64)| encode_stamp_entry(p.0, p.1);
    if e.len() > 0 {
        lemma_parse_stamp_entries_of_encoded(e.drop_last());
        assert(e.map_values(enc).drop_last() =~= e.drop_last().map_values(enc));
        assert(is_wire_path(e[e.len() - 1].0));
        lemma_stamp_entry_round_trip(e.last().0, e.last().1);
    }
}

/// The wire form of the timestamp map decodes to the same map, when no
/// path holds the delimiter or the separator.
pub proof fn stamps_round_trip(m: FileStateMap)
    requires
        forall|p: Seq<char>| m@.contains_key(p) ==> is_wire_path(p),
    ensures
        decode_stamps(encode_stamp_list(m.entries())) == Some(m@),
{
    let e = m.entries();
    let enc = |p: (Seq<char>, u64)| encode_stamp_entry(p.0, p.1);
    assert forall|i: int| 0 <= i < e.len() implies is_wire_path(#[trigger] e[i].0) by {
        lemma_stamp_map_has_key(e, i);
    }
    lemma_fields_of_stamp_list(e);
    assert forall|i: int| 0 <= i < e.map_values(enc).len() implies (#[trigger] e.map_values(
        enc,
    )[i]).len() > 0 by {
        lemma_stamp_entry_has_no_delimiter(e[i].0, e[i].1);
    }
    lemma_nonempty_after_blank(e.map_values(enc));
    lemma_parse_stamp_entries_of_encoded(e);
}

/// Once a prefix of the entries fails to parse, every longer one fails.
proof fn lemma_parse_failure_persists(all: Seq<Seq<char>>, i: int, j: int)
    requires
        0 <= i <= j <= all.len(),
        parse_stamp_entries(nonempty(all.take(i))) is None,
    ensures
        parse_stamp_entries(nonempty(all.take(j))) is None,
    decreases j - i,
{
    if i < j {
        lemma_parse_failure_persists(all, i, j - 1);
        let t = all.take(j);
        assert(t.drop_last() =~= all.take(j - 1));
        if t.last().len() > 0 {
            assert(nonempty(t).drop_last() =~= nonempty(all.take(j - 1)));
        }
    }
}

/// Encodes the timestamp map: for each entry `|`, the path, a tab and the
/// time in base-10 milliseconds.
pub fn serialize_file_timestamps(file_timestamps: &FileStateMap) -> (r: String)
    ensures
        r@ == encode_stamp_list(file_timestamps.entries()),
{
    let mut out = String::new();
    let mut i: usize = 0;
    let ghost e = file_timestamps.entries();
    assert(e.take(0) =~= Seq::<(Seq<char>, u64)>::empty());
    while i < file_timestamps.len()
        invariant
            e == file_timestamps.entries(),
            i <= e.len(),
            out@ == encode_stamp_list(e.take(i as int)),
        decreases e.len() - i,
    {
        let bar = "|";
        let tab = "\t";
        proof {
            reveal_strlit("|");
            reveal_strlit("\t");
        }
        assert(bar@.len() == 1 && tab@.len() == 1);
        assert(bar@ =~= seq![delimiter()]);
        assert(tab@ =~= seq![key_val_separator()]);
        out.append(bar);
        out.append(file_timestamps.path_at(i).as_str());
        out.append(tab);
        let digits = decimal_string(file_timestamps.stamp_at(i));
        out.append(digits.as_str());
        assert(e.take(i + 1).drop_last() =~= e.take(i as int));
        assert(e.take(i + 1).last() == e[i as int]);
        assert(out@ =~= encode_stamp_list(e.take(i + 1)));
        i += 1;
    }
    assert(e.take(e.len() as int) =~= e);
    out
}

/// Decodes a timestamp map. Every non-empty field between delimiters must
/// be a path, one tab and a base-10 number that fits in a `u64`; a later
/// entry for a path replaces an earlier one. Anything else is refused as
/// malformed.
pub fn deserialize_file_timestamps(string: &str) -> (r: Result<FileStateMap, SyncError>)
    ensures
        match decode_stamps(string@) {
            Some(m) => match r {
                Ok(fm) => fm.wf() && fm@ == m,
                Err(_) => false,
            },
            None => r == Err::<FileStateMap, SyncError>(SyncError::MalformedWireData),
        },
{
    let fs = split_fields(string, '|');
    let mut map = FileStateMap::new();
    let mut i: usize = 0;
    let ghost all = fields(string@, delimiter());
    assert(all.take(0) =~= Seq::<Seq<char>>::empty());
    while i < fs.len()
        invariant
            i <= fs.len(),
            views(fs@) == all,
            all == fields(string@, delimiter()),
            map.wf(),
            parse_stamp_entries(nonempty(all.take(i as int))) == Some(map@),
        decreases fs.len() - i,
    {
        assert(all.take(i + 1).drop_last() =~= all.take(i as int));
        assert(fs[i as int]@ == all[i as int]);
        assert(all.take(i + 1).last() == all[i as int]);
        if fs[i].as_str().unicode_len() > 0 {
            let kv = split_fields(fs[i].as_str(), '\t');
            let ghost ne = nonempty(all.take(i + 1));
            assert(ne.drop_last() =~= nonempty(all.take(i as int)));
            assert(ne.last() == all[i as int]);
            assert(views(kv@).len() == kv@.len());
            if kv.len() != 2 {
                proof {
                    assert(parse_stamp_entry(all[i as int]) is None);
                    assert(parse_stamp_entries(ne) is None);
                    lemma_parse_failure_persists(all, i + 1, all.len() as int);
                    assert(all.take(all.len() as int) =~= all);
                }
                return Err(SyncError::MalformedWireData);
            }
            match parse_decimal(kv[1].as_str()) {
                None => {
                    proof {
                        assert(kv[1]@ == views(kv@)[1]);
                        assert(parse_stamp_entry(all[i as int]) is None);
                        assert(parse_stamp_entries(ne) is None);
                        lemma_parse_failure_persists(all, i + 1, all.len() as int);
                        assert(all.take(all.len() as int) =~= all);
                        }
                    return Err(SyncError::MalformedWireData);
                },
                Some(v) => {
                    assert(kv[0]@ == views(kv@)[0]);
                    assert(kv[1]@ == views(kv@)[1]);
                    map.record_change(kv[0].clone(), v);
                },
            }
        }
        i += 1;
    }
    assert(all.take(fs.len() as int) =~= all);
    Ok(map)
}

} // verus!
