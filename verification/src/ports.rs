//! The table of worker ports: which user's worker listens on which UDP port.
//!
//! The table is a text of lines `name:port`. Lines that are not of this form are skipped; of
//! several lines with the same name the last counts.
use vstd::prelude::*;
use vstd::slice::slice_subrange;

use crate::text::{
    chars_of, decimal, decimal_reads_back, find_char, first_at, first_at_is, first_at_positions,
    is_digit, lines, parse_unsigned, push_decimal, same_text, string_of, unsigned_value, without_cr,
};

verus! {

/// The port on which the first worker listens where no other is asked for.
pub const DEFAULT_PORT: u16 = 9090;

/// One line of the table.
#[derive(Debug, PartialEq, Eq)]
pub struct PortEntry {
    pub name: String,
    pub port: u16,
}

impl View for PortEntry {
    type V = (Seq<char>, u16);

    open spec fn view(&self) -> (Seq<char>, u16) {
        (self.name@, self.port)
    }
}

/// The names and ports of a list of entries.
pub open spec fn listed(list: Seq<PortEntry>) -> Seq<(Seq<char>, u16)> {
    list.map_values(|e: PortEntry| e@)
}

/// The entry in a line: a name without a colon, a colon, and a number that is a port.
pub open spec fn entry_of_line(line: Seq<char>) -> Option<(Seq<char>, u16)> {
    let n = first_at(line, ':');
    if n < 0 || n >= line.len() {
        None
    } else {
        match unsigned_value(line.skip(n + 1), 0xFFFF) {
            Some(port) => Some((line.take(n), port as u16)),
            None => None,
        }
    }
}

/// The entries in some lines, in order.
pub open spec fn entries_of_lines(ls: Seq<Seq<char>>) -> Seq<(Seq<char>, u16)>
    decreases ls.len(),
{
    if ls.len() == 0 {
        Seq::empty()
    } else {
        match entry_of_line(ls[0]) {
            Some(e) => seq![e] + entries_of_lines(ls.drop_first()),
            None => entries_of_lines(ls.drop_first()),
        }
    }
}

/// The entries in a text, in order.
pub open spec fn entries(content: Seq<char>) -> Seq<(Seq<char>, u16)> {
    entries_of_lines(lines(content))
}

/// Reads one line of the table.
fn read_line(line: &[char]) -> (entry: Option<PortEntry>)
    ensures
        match entry {
            Some(e) => entry_of_line(line@) == Some(e@),
            None => entry_of_line(line@) is None,
        },
{
    assert(line@.skip(0) =~= line@);
    let colon: usize = find_char(line, 0, ':');
    if colon >= line.len() {
        return None;
    }
    let name: &[char] = slice_subrange(line, 0, colon);
    let number: &[char] = slice_subrange(line, colon + 1, line.len());
    assert(name@ =~= line@.take(colon as int));
    assert(number@ =~= line@.skip(colon as int + 1));
    match parse_unsigned(number, 0xFFFF) {
        Some(port) => Some(PortEntry { name: string_of(name), port: port as u16 }),
        None => None,
    }
}

/// Reads the table.
pub fn read_entries(content: &str) -> (list: Vec<PortEntry>)
    ensures
        listed(list@) == entries(content@),
{
    let text: Vec<char> = chars_of(content);
    let mut list: Vec<PortEntry> = Vec::new();
    let mut from: usize = 0;
    assert(text@.skip(0) =~= text@);
    assert(listed(list@) + entries(text@) =~= entries(text@));
    while from < text.len()
        invariant
            from <= text@.len(),
            listed(list@) + entries(text@.skip(from as int)) == entries(text@),
        decreases text@.len() - from,
    {
        let ghost rest = text@.skip(from as int);
        let ghost before = list@;
        let end: usize = find_char(text.as_slice(), from, '\n');
        let mut stop: usize = end;
        if end < text.len() && end > from && text[end - 1] == '\r' {
            stop = end - 1;
        }
        let line: &[char] = slice_subrange(text.as_slice(), from, stop);
        let next: usize = if end < text.len() { end + 1 } else { end };
        proof {
            let n = first_at(rest, '\n');
            first_at_positions(rest, '\n');
            if end < text.len() {
                assert(rest.take(n) =~= text@.subrange(from as int, end as int));
                assert(line@ =~= without_cr(rest.take(n)));
                assert(rest.skip(n + 1) =~= text@.skip(next as int));
            } else {
                assert(line@ =~= rest);
                assert(text@.skip(next as int) =~= Seq::<char>::empty());
                assert(lines(text@.skip(next as int)) =~= Seq::<Seq<char>>::empty());
            }
            assert(lines(rest) =~= seq![line@] + lines(text@.skip(next as int)));
            assert(lines(rest).drop_first() =~= lines(text@.skip(next as int)));
            assert(lines(rest)[0] == line@);
        }
        match read_line(line) {
            Some(e) => {
                list.push(e);
                proof {
                    assert(listed(list@) =~= listed(before).push(e@));
                    assert(listed(list@) + entries(text@.skip(next as int)) =~= listed(before)
                        + entries(rest));
                }
            },
            None => {},
        }
        from = next;
    }
    assert(text@.skip(from as int) =~= Seq::<char>::empty());
    assert(lines(text@.skip(from as int)) =~= Seq::<Seq<char>>::empty());
    assert(listed(list@) + Seq::<(Seq<char>, u16)>::empty() =~= listed(list@));
    list
}

/// The port of the last entry with that name.
pub open spec fn port_for(list: Seq<(Seq<char>, u16)>, name: Seq<char>) -> Option<u16>
    decreases list.len(),
{
    if list.len() == 0 {
        None
    } else if list.last().0 == name {
        Some(list.last().1)
    } else {
        port_for(list.drop_last(), name)
    }
}

/// The name of the last entry with that port.
pub open spec fn name_for(list: Seq<(Seq<char>, u16)>, port: u16) -> Option<Seq<char>>
    decreases list.len(),
{
    if list.len() == 0 {
        None
    } else if list.last().1 == port {
        Some(list.last().0)
    } else {
        name_for(list.drop_last(), port)
    }
}

/// Where an entry with that name first stands; the length of the list where there is none.
pub open spec fn position_of(list: Seq<(Seq<char>, u16)>, name: Seq<char>) -> int
    decreases list.len(),
{
    if list.len() == 0 || list[0].0 == name {
        0
    } else {
        1 + position_of(list.drop_first(), name)
    }
}

/// A list with distinct names after one more entry came in: the entry takes the place of the
/// one with its name, or goes to the end.
pub open spec fn merge_entry(
    list: Seq<(Seq<char>, u16)>,
    e: (Seq<char>, u16),
) -> Seq<(Seq<char>, u16)> {
    let n = position_of(list, e.0);
    if 0 <= n < list.len() {
        list.update(n, e)
    } else {
        list.push(e)
    }
}

/// A list in which every name occurs once, with the port that it had last.
pub open spec fn merged(list: Seq<(Seq<char>, u16)>) -> Seq<(Seq<char>, u16)>
    decreases list.len(),
{
    if list.len() == 0 {
        Seq::empty()
    } else {
        merge_entry(merged(list.drop_last()), list.last())
    }
}

/// The highest port in a list.
pub open spec fn highest(list: Seq<(Seq<char>, u16)>) -> Option<u16>
    decreases list.len(),
{
    if list.len() == 0 {
        None
    } else {
        match highest(list.drop_last()) {
            Some(p) if p > list.last().1 => Some(p),
            _ => Some(list.last().1),
        }
    }
}

/// The port for one more worker: two above the highest, or the default one.
pub open spec fn next_port(list: Seq<(Seq<char>, u16)>, default_port: u16) -> int {
    match highest(list) {
        Some(p) => p + 2,
        None => default_port as int,
    }
}

/// One line of the table.
pub open spec fn rendered_entry(e: (Seq<char>, u16)) -> Seq<char> {
    e.0 + ":"@ + decimal(e.1 as nat) + "\n"@
}

/// The table as a text.
pub open spec fn rendered(list: Seq<(Seq<char>, u16)>) -> Seq<char>
    decreases list.len(),
{
    if list.len() == 0 {
        Seq::empty()
    } else {
        rendered(list.drop_last()) + rendered_entry(list.last())
    }
}

proof fn lemma_position_of(list: Seq<(Seq<char>, u16)>, name: Seq<char>)
    ensures
        0 <= position_of(list, name) <= list.len(),
        position_of(list, name) < list.len() ==> list[position_of(list, name)].0 == name,
        forall|i: int| 0 <= i < position_of(list, name) ==> (#[trigger] list[i]).0 != name,
    decreases list.len(),
{
    if list.len() > 0 && list[0].0 != name {
        lemma_position_of(list.drop_first(), name);
        assert forall|i: int| 0 <= i < position_of(list, name) implies (#[trigger] list[i]).0
            != name by {
            if i > 0 {
                assert(list[i] == list.drop_first()[i - 1]);
            }
        }
    }
}

/// Finds the first entry with that name.
fn find_entry(list: &Vec<PortEntry>, name: &str) -> (at: usize)
    ensures
        at == position_of(listed(list@), name@),
        at <= list@.len(),
{
    let mut at: usize = 0;
    while at < list.len() && !same_text(list[at].name.as_str(), name)
        invariant
            at <= list@.len(),
            forall|i: int| 0 <= i < at ==> (#[trigger] listed(list@)[i]).0 != name@,
        decreases list@.len() - at,
    {
        assert(listed(list@)[at as int].0 == list@[at as int].name@);
        at = at + 1;
    }
    proof {
        lemma_position_of(listed(list@), name@);
        if at < list@.len() {
            assert(listed(list@)[at as int].0 == name@);
        }
    }
    at
}

/// Puts an entry into a list with distinct names.
fn merge(list: &mut Vec<PortEntry>, e: PortEntry)
    ensures
        listed(final(list)@) == merge_entry(listed(old(list)@), e@),
{
    let at: usize = find_entry(list, e.name.as_str());
    if at < list.len() {
        let ghost before = list@;
        list[at].port = e.port;
        proof {
            lemma_position_of(listed(before), e@.0);
            assert(listed(before)[at as int].0 == e.name@);
            assert(listed(list@) =~= listed(before).update(at as int, e@));
        }
    } else {
        let ghost before = list@;
        list.push(e);
        assert(listed(list@) =~= listed(before).push(e@));
    }
}

/// Reads the table with every name once.
fn read_table(content: &str) -> (table: Vec<PortEntry>)
    ensures
        listed(table@) == merged(entries(content@)),
{
    let list: Vec<PortEntry> = read_entries(content);
    let mut table: Vec<PortEntry> = Vec::new();
    let ghost all = listed(list@);
    let mut i: usize = 0;
    assert(listed(table@) =~= merged(all.take(0)));
    while i < list.len()
        invariant
            i <= list@.len(),
            listed(list@) == all,
            listed(table@) == merged(all.take(i as int)),
        decreases list@.len() - i,
    {
        let e: PortEntry = PortEntry { name: list[i].name.clone(), port: list[i].port };
        merge(&mut table, e);
        proof {
            let upto = all.take(i as int + 1);
            assert(upto.drop_last() =~= all.take(i as int));
            assert(upto.last() == listed(list@)[i as int]);
            assert(upto.last() == e@);
        }
        i = i + 1;
    }
    assert(all.take(list@.len() as int) =~= all);
    table
}

fn highest_port(list: &Vec<PortEntry>) -> (port: Option<u16>)
    ensures
        port == highest(listed(list@)),
{
    let ghost all = listed(list@);
    let mut port: Option<u16> = None;
    let mut i: usize = 0;
    while i < list.len()
        invariant
            i <= list@.len(),
            all == listed(list@),
            port == highest(all.take(i as int)),
        decreases list@.len() - i,
    {
        let p: u16 = list[i].port;
        proof {
            let upto = all.take(i as int + 1);
            assert(upto.drop_last() =~= all.take(i as int));
            assert(upto.last().1 == p);
        }
        port = match port {
            Some(q) if q > p => Some(q),
            _ => Some(p),
        };
        i = i + 1;
    }
    assert(all.take(list@.len() as int) =~= all);
    port
}

fn render(list: &Vec<PortEntry>) -> (content: String)
    ensures
        content@ == rendered(listed(list@)),
{
    let ghost all = listed(list@);
    let mut content: String = String::new();
    let mut i: usize = 0;
    while i < list.len()
        invariant
            i <= list@.len(),
            all == listed(list@),
            content@ == rendered(all.take(i as int)),
        decreases list@.len() - i,
    {
        let ghost before = content@;
        content.append(list[i].name.as_str());
        content.append(":");
        push_decimal(&mut content, list[i].port as u64);
        content.append("\n");
        proof {
            let upto = all.take(i as int + 1);
            assert(upto.drop_last() =~= all.take(i as int));
            assert(upto.last() == list@[i as int]@);
            assert(content@ =~= before + rendered_entry(upto.last()));
        }
        i = i + 1;
    }
    assert(all.take(list@.len() as int) =~= all);
    content
}

/// The port of a worker, and the table to write where it has changed.
#[derive(Debug)]
pub struct PortDecision {
    pub port: u16,
    pub content: Option<String>,
}

/// Whether a user without a port can be given one: the default port is at least two, and the
/// next port is a port.
pub open spec fn port_assignable(
    content: Seq<char>,
    username: Seq<char>,
    default_port: u16,
) -> bool {
    port_for(entries(content), username) is None ==> {
        &&& default_port >= 2
        &&& next_port(merged(entries(content)), default_port) <= 0xFFFF
    }
}

/// Merging keeps the port that each name had last, and each name once.
pub proof fn merging_keeps_last_port(list: Seq<(Seq<char>, u16)>, name: Seq<char>)
    ensures
        port_for(merged(list), name) == port_for(list, name),
        forall|i: int, j: int|
            0 <= i < j < merged(list).len() ==> (#[trigger] merged(list)[i]).0 != (
            #[trigger] merged(list)[j]).0,
        forall|i: int|
            0 <= i < merged(list).len() ==> port_for(list, (#[trigger] merged(list)[i]).0) == Some(
                merged(list)[i].1,
            ),
{
    lemma_merged_distinct(list);
    lemma_merged_ports(list, name);
    assert forall|i: int| 0 <= i < merged(list).len() implies port_for(
        list,
        (#[trigger] merged(list)[i]).0,
    ) == Some(merged(list)[i].1) by {
        lemma_merged_ports(list, merged(list)[i].0);
        lemma_port_at(merged(list), i);
    }
}

spec fn distinct_names(list: Seq<(Seq<char>, u16)>) -> bool {
    forall|i: int, j: int|
        0 <= i < j < list.len() ==> (#[trigger] list[i]).0 != (#[trigger] list[j]).0
}

/// In a list with distinct names the port of a name is the one beside it.
proof fn lemma_port_at(list: Seq<(Seq<char>, u16)>, i: int)
    requires
        distinct_names(list),
        0 <= i < list.len(),
    ensures
        port_for(list, list[i].0) == Some(list[i].1),
    decreases list.len(),
{
    if i < list.len() - 1 {
        assert(list[i].0 != list[list.len() - 1].0);
        lemma_port_at(list.drop_last(), i);
    }
}

proof fn lemma_port_absent(list: Seq<(Seq<char>, u16)>, name: Seq<char>)
    requires
        forall|i: int| 0 <= i < list.len() ==> (#[trigger] list[i]).0 != name,
    ensures
        port_for(list, name) is None,
    decreases list.len(),
{
    if list.len() > 0 {
        assert(list[list.len() - 1].0 != name);
        assert forall|i: int| 0 <= i < list.drop_last().len() implies (
        #[trigger] list.drop_last()[i]).0 != name by {
            assert(list.drop_last()[i] == list[i]);
        }
        lemma_port_absent(list.drop_last(), name);
    }
}

proof fn lemma_merged_distinct(list: Seq<(Seq<char>, u16)>)
    ensures
        distinct_names(merged(list)),
    decreases list.len(),
{
    if list.len() > 0 {
        let m = merged(list.drop_last());
        lemma_merged_distinct(list.drop_last());
        lemma_position_of(m, list.last().0);
        let t = merge_entry(m, list.last());
        assert forall|i: int, j: int| 0 <= i < j < t.len() implies (#[trigger] t[i]).0 != (
        #[trigger] t[j]).0 by {
            if j < m.len() {
                assert(m[i].0 != m[j].0);
            }
        }
    }
}

/// One more entry changes the port of its own name only.
proof fn lemma_merge_entry_port(m: Seq<(Seq<char>, u16)>, e: (Seq<char>, u16), name: Seq<char>)
    requires
        distinct_names(m),
    ensures
        port_for(merge_entry(m, e), name) == (if name == e.0 {
            Some(e.1)
        } else {
            port_for(m, name)
        }),
{
    let n = position_of(m, e.0);
    lemma_position_of(m, e.0);
    if n < m.len() {
        let t = m.update(n, e);
        assert forall|i: int, j: int| 0 <= i < j < t.len() implies (#[trigger] t[i]).0 != (
        #[trigger] t[j]).0 by {
            assert(m[i].0 != m[j].0);
        }
        if exists|i: int| 0 <= i < m.len() && (#[trigger] m[i]).0 == name {
            let i = choose|i: int| 0 <= i < m.len() && (#[trigger] m[i]).0 == name;
            lemma_port_at(m, i);
            lemma_port_at(t, i);
            assert(t[i].0 == name);
            if name == e.0 {
                assert(i == n) by {
                    if i < n {
                        assert(m[i].0 != m[n].0);
                    } else if n < i {
                        assert(m[n].0 != m[i].0);
                    }
                }
            }
        } else {
            lemma_port_absent(m, name);
            assert forall|i: int| 0 <= i < t.len() implies (#[trigger] t[i]).0 != name by {
                assert(m[i].0 != name);
            }
            lemma_port_absent(t, name);
            assert(m[n].0 == e.0);
        }
    } else {
        let t = m.push(e);
        assert(t.drop_last() =~= m);
    }
}

proof fn lemma_merged_ports(list: Seq<(Seq<char>, u16)>, name: Seq<char>)
    ensures
        port_for(merged(list), name) == port_for(list, name),
    decreases list.len(),
{
    if list.len() > 0 {
        lemma_merged_distinct(list.drop_last());
        lemma_merged_ports(list.drop_last(), name);
        lemma_merge_entry_port(merged(list.drop_last()), list.last(), name);
    }
}

/// Where a name stands in the merged list, its port is the one beside it; where it does not, it
/// has none.
proof fn lemma_table_port(list: Seq<(Seq<char>, u16)>, name: Seq<char>)
    ensures
        ({
            let table = merged(list);
            let at = position_of(table, name);
            port_for(list, name) == (if 0 <= at < table.len() {
                Some(table[at].1)
            } else {
                None
            })
        }),
{
    let table = merged(list);
    let at = position_of(table, name);
    lemma_merged_distinct(list);
    lemma_merged_ports(list, name);
    lemma_position_of(table, name);
    if at < table.len() {
        lemma_port_at(table, at);
    } else {
        lemma_port_absent(table, name);
    }
}

/// Decides the port of a user's worker. A user in the table keeps the port that stands there;
/// any other gets the next one, and the table is to be written with it.
pub fn get_auto_port(content: &str, username: &str, default_port: u16) -> (decision: PortDecision)
    requires
        port_assignable(content@, username@, default_port),
    ensures
        match port_for(entries(content@), username@) {
            Some(port) => decision.port == port && decision.content is None,
            None => {
                let table = merged(entries(content@));
                &&& decision.port == next_port(table, default_port)
                &&& decision.content is Some
                &&& decision.content->0@ == rendered(table.push((username@, decision.port)))
            },
        },
{
    let mut table: Vec<PortEntry> = read_table(content);
    let ghost known = listed(table@);
    let at: usize = find_entry(&table, username);
    proof {
        lemma_table_port(entries(content@), username@);
    }
    if at < table.len() {
        assert(known[at as int].1 == table@[at as int].port);
        return PortDecision { port: table[at].port, content: None };
    }
    let port: u16 = match highest_port(&table) {
        Some(p) => p + 2,
        None => default_port,
    };
    table.push(PortEntry { name: username.to_owned(), port });
    assert(listed(table@) =~= known.push((username@, port)));
    PortDecision { port, content: Some(render(&table)) }
}

/// Tells whether `get_auto_port` can decide.
pub fn can_assign_port(content: &str, username: &str, default_port: u16) -> (possible: bool)
    ensures
        possible == port_assignable(content@, username@, default_port),
{
    let table: Vec<PortEntry> = read_table(content);
    let at: usize = find_entry(&table, username);
    proof {
        lemma_table_port(entries(content@), username@);
    }
    if at < table.len() {
        return true;
    }
    default_port >= 2 && match highest_port(&table) {
        Some(p) => p <= 0xFFFD,
        None => true,
    }
}

/// Who works on a port: the user of the last entry with it, or `P:` and the port.
pub fn owner_of(list: &Vec<PortEntry>, port: u16) -> (owner: String)
    ensures
        owner@ == (match name_for(listed(list@), port) {
            Some(name) => name,
            None => "P:"@ + decimal(port as nat),
        }),
{
    let ghost all = listed(list@);
    let mut n: usize = list.len();
    assert(all.take(n as int) =~= all);
    while n > 0
        invariant
            n <= list@.len(),
            all == listed(list@),
            name_for(all, port) == name_for(all.take(n as int), port),
        decreases n,
    {
        let ghost upto = all.take(n as int);
        assert(upto.last() == list@[n - 1]@);
        assert(upto.drop_last() =~= all.take(n - 1));
        if list[n - 1].port == port {
            return list[n - 1].name.clone();
        }
        n = n - 1;
    }
    let mut owner: String = String::new();
    owner.append("P:");
    push_decimal(&mut owner, port as u64);
    owner
}

// ---------------------------------------------------------------------------------------
// What holds of the table as a whole
// ---------------------------------------------------------------------------------------

/// A name that a line of the table can hold.
pub open spec fn fits_in_line(name: Seq<char>) -> bool {
    !name.contains(':') && !name.contains('\n')
}

pub open spec fn all_fit(list: Seq<(Seq<char>, u16)>) -> bool {
    forall|i: int| 0 <= i < list.len() ==> fits_in_line((#[trigger] list[i]).0)
}

/// The line of an entry reads back as that entry.
proof fn lemma_line_reads_back(e: (Seq<char>, u16))
    requires
        fits_in_line(e.0),
    ensures
        ({
            let line = e.0 + ":"@ + decimal(e.1 as nat);
            &&& entry_of_line(line) == Some(e)
            &&& !line.contains('\n')
            &&& without_cr(line) == line
            &&& rendered_entry(e) == line.push('\n')
        }),
{
    reveal_strlit(":");
    reveal_strlit("\n");
    let number = decimal(e.1 as nat);
    let line = e.0 + ":"@ + number;
    decimal_reads_back(e.1 as nat, 0xFFFF);
    assert forall|i: int| 0 <= i < e.0.len() implies line[i] != ':' by {
        assert(e.0.contains(e.0[i]));
    }
    assert(line[e.0.len() as int] == ':');
    first_at_is(line, ':', e.0.len() as int);
    assert(line.skip(e.0.len() as int + 1) =~= number);
    assert(line.take(e.0.len() as int) =~= e.0);
    assert forall|i: int| 0 <= i < line.len() implies line[i] != '\n' by {
        if i < e.0.len() {
            assert(e.0.contains(e.0[i]));
        } else if i > e.0.len() {
            assert(is_digit(number[i - e.0.len() - 1]));
        }
    }
    assert(is_digit(number[number.len() - 1]));
    assert(line.last() == number[number.len() - 1]);
    assert(rendered_entry(e) =~= line.push('\n'));
}

/// A text that starts with a whole line has that line first.
proof fn lemma_first_line(line: Seq<char>, rest: Seq<char>)
    requires
        !line.contains('\n'),
    ensures
        lines(line.push('\n') + rest) == seq![without_cr(line)] + lines(rest),
{
    let s = line.push('\n') + rest;
    assert forall|i: int| 0 <= i < line.len() implies s[i] != '\n' by {
        assert(line.contains(line[i]));
    }
    first_at_is(s, '\n', line.len() as int);
    assert(s.take(line.len() as int) =~= line);
    assert(s.skip(line.len() as int + 1) =~= rest);
}

proof fn lemma_rendered_front(list: Seq<(Seq<char>, u16)>)
    requires
        list.len() > 0,
    ensures
        rendered(list) == rendered_entry(list[0]) + rendered(list.drop_first()),
    decreases list.len(),
{
    if list.len() == 1 {
        assert(list.drop_last() =~= Seq::<(Seq<char>, u16)>::empty());
        assert(list.drop_first() =~= Seq::<(Seq<char>, u16)>::empty());
        assert(rendered(list) =~= rendered_entry(list[0]) + rendered(list.drop_first()));
    } else {
        lemma_rendered_front(list.drop_last());
        assert(list.drop_last().drop_first() =~= list.drop_first().drop_last());
        assert(list.drop_first().last() == list.last());
        assert(rendered(list) =~= rendered_entry(list[0]) + rendered(list.drop_first()));
    }
}

/// A table that was written reads back as the same entries, where every name fits in a line.
pub proof fn written_table_reads_back(list: Seq<(Seq<char>, u16)>)
    requires
        all_fit(list),
    ensures
        entries(rendered(list)) == list,
    decreases list.len(),
{
    if list.len() == 0 {
        assert(lines(rendered(list)) =~= Seq::<Seq<char>>::empty());
        assert(entries(rendered(list)) =~= list);
    } else {
        let e = list[0];
        let rest = list.drop_first();
        let line = e.0 + ":"@ + decimal(e.1 as nat);
        assert(fits_in_line(list[0].0));
        lemma_rendered_front(list);
        lemma_line_reads_back(e);
        lemma_first_line(line, rendered(rest));
        assert forall|i: int| 0 <= i < rest.len() implies fits_in_line((#[trigger] rest[i]).0) by {
            assert(rest[i] == list[i + 1]);
        }
        written_table_reads_back(rest);
        let ls = lines(rendered(list));
        assert(ls =~= seq![line] + lines(rendered(rest)));
        assert(ls[0] == line);
        assert(ls.drop_first() =~= lines(rendered(rest)));
        assert(entries(rendered(list)) =~= seq![e] + rest);
        assert(seq![e] + rest =~= list);
    }
}

/// The lines of a text hold no line feed.
proof fn lemma_lines_have_no_feed(s: Seq<char>)
    ensures
        forall|i: int| 0 <= i < lines(s).len() ==> !(#[trigger] lines(s)[i]).contains('\n'),
    decreases s.len(),
{
    if s.len() > 0 {
        let n = first_at(s, '\n');
        first_at_positions(s, '\n');
        if n >= s.len() {
            assert(!s.contains('\n'));
        } else {
            lemma_lines_have_no_feed(s.skip(n + 1));
            assert(!without_cr(s.take(n)).contains('\n')) by {
                let line = without_cr(s.take(n));
                assert forall|i: int| 0 <= i < line.len() implies line[i] != '\n' by {
                    assert(line[i] == s[i]);
                }
            }
            assert forall|i: int| 0 <= i < lines(s).len() implies !(
            #[trigger] lines(s)[i]).contains('\n') by {
                if i > 0 {
                    assert(lines(s)[i] == lines(s.skip(n + 1))[i - 1]);
                }
            }
        }
    }
}

proof fn lemma_line_entries_fit(ls: Seq<Seq<char>>)
    requires
        forall|i: int| 0 <= i < ls.len() ==> !(#[trigger] ls[i]).contains('\n'),
    ensures
        all_fit(entries_of_lines(ls)),
    decreases ls.len(),
{
    if ls.len() > 0 {
        let rest = ls.drop_first();
        assert forall|i: int| 0 <= i < rest.len() implies !(#[trigger] rest[i]).contains('\n') by {
            assert(rest[i] == ls[i + 1]);
        }
        lemma_line_entries_fit(rest);
        match entry_of_line(ls[0]) {
            Some(e) => {
                first_at_positions(ls[0], ':');
                assert(!ls[0].contains('\n'));
                assert(fits_in_line(e.0)) by {
                    assert forall|i: int| 0 <= i < e.0.len() implies e.0[i] != ':' && e.0[i]
                        != '\n' by {
                        assert(e.0[i] == ls[0][i]);
                        assert(ls[0].contains(ls[0][i]));
                    }
                }
                let all = entries_of_lines(ls);
                assert forall|i: int| 0 <= i < all.len() implies fits_in_line(
                    (#[trigger] all[i]).0,
                ) by {
                    if i > 0 {
                        assert(all[i] == entries_of_lines(rest)[i - 1]);
                    }
                }
            },
            None => {},
        }
    }
}

proof fn lemma_merged_fit(list: Seq<(Seq<char>, u16)>)
    requires
        all_fit(list),
    ensures
        all_fit(merged(list)),
    decreases list.len(),
{
    if list.len() > 0 {
        let front = list.drop_last();
        assert forall|i: int| 0 <= i < front.len() implies fits_in_line((#[trigger] front[i]).0) by {
            assert(front[i] == list[i]);
        }
        lemma_merged_fit(front);
        assert(fits_in_line(list[list.len() - 1].0));
        lemma_position_of(merged(front), list.last().0);
    }
}

/// Every name in the table of a text fits in a line.
pub proof fn read_names_fit(content: Seq<char>)
    ensures
        all_fit(entries(content)),
        all_fit(merged(entries(content))),
{
    lemma_lines_have_no_feed(content);
    lemma_line_entries_fit(lines(content));
    lemma_merged_fit(entries(content));
}

/// A port once assigned stays: in the table that is written, the user has the port that was
/// decided, and every other user has the port of before. So the next decision for the user is
/// the same port, with nothing to write. This holds of a user name that fits in a line.
pub proof fn assigned_port_is_kept(
    content: Seq<char>,
    username: Seq<char>,
    port: u16,
    other: Seq<char>,
)
    requires
        port_for(entries(content), username) is None,
        fits_in_line(username),
    ensures
        ({
            let table = merged(entries(content)).push((username, port));
            let written = entries(rendered(table));
            &&& port_for(written, username) == Some(port)
            &&& other != username ==> port_for(written, other) == port_for(entries(content), other)
        }),
{
    let known = merged(entries(content));
    let table = known.push((username, port));
    read_names_fit(content);
    assert(all_fit(table));
    written_table_reads_back(table);
    assert(table.drop_last() =~= known);
    lemma_merged_ports(entries(content), other);
}

proof fn lemma_highest(list: Seq<(Seq<char>, u16)>)
    ensures
        list.len() > 0 ==> highest(list) is Some,
        list.len() == 0 ==> highest(list) is None,
        forall|i: int| 0 <= i < list.len() ==> (#[trigger] list[i]).1 <= highest(list)->0,
    decreases list.len(),
{
    if list.len() > 0 {
        let front = list.drop_last();
        lemma_highest(front);
        assert forall|i: int| 0 <= i < list.len() implies (#[trigger] list[i]).1 <= highest(
            list,
        )->0 by {
            if i < front.len() {
                assert(front[i] == list[i]);
            }
        }
    }
}

/// A new port is above every port in the table, so that no two users come to share one.
pub proof fn new_port_is_free(list: Seq<(Seq<char>, u16)>, default_port: u16, i: int)
    requires
        0 <= i < list.len(),
    ensures
        next_port(list, default_port) >= list[i].1 + 2,
{
    lemma_highest(list);
    assert(list[i].1 <= highest(list)->0);
}

/// An entry has the name and the port of its line.
pub proof fn entries_have_name_and_port(list: Seq<PortEntry>, i: int)
    requires
        0 <= i < list.len(),
    ensures
        listed(list).len() == list.len(),
        listed(list)[i].0 == list[i].name@,
        listed(list)[i].1 == list[i].port,
{
}

/// A line is an entry just where it is a name without a colon, a colon, and a number up to 65535.
pub proof fn line_is_name_and_port(name: Seq<char>, number: Seq<char>, line: Seq<char>)
    ensures
        !name.contains(':') && unsigned_value(number, 65535) is Some ==> {
            let e = entry_of_line(name + seq![':'] + number);
            e is Some && (e->0).0 == name && (e->0).1 == unsigned_value(number, 65535)->0
        },
        !name.contains(':') && unsigned_value(number, 65535) is None ==> entry_of_line(
            name + seq![':'] + number,
        ) is None,
        !line.contains(':') ==> entry_of_line(line) is None,
{
    if !name.contains(':') {
        let whole = name + seq![':'] + number;
        assert forall|i: int| 0 <= i < name.len() implies whole[i] != ':' by {
            assert(name.contains(name[i]));
        }
        first_at_is(whole, ':', name.len() as int);
        assert(whole.take(name.len() as int) =~= name);
        assert(whole.skip(name.len() as int + 1) =~= number);
    }
    if !line.contains(':') {
        assert forall|i: int| 0 <= i < line.len() implies line[i] != ':' by {
            assert(line.contains(line[i]));
        }
        first_at_is(line, ':', line.len() as int);
    }
}

/// Lines are read one after the other: a line without a line feed, with or without a carriage
/// return before its own, gives its entry, where it is one, and then come the entries of what follows
/// its line feed. What stands behind the last line feed is a line of its own.
pub proof fn table_is_read_line_by_line(line: Seq<char>, rest: Seq<char>)
    requires
        forall|i: int| 0 <= i < line.len() ==> #[trigger] line[i] != '\n',
    ensures
        ({
            let own = match entry_of_line(line) {
                Some(e) => seq![e],
                None => Seq::empty(),
            };
            &&& line.len() == 0 || line.last() != '\r' ==> entries(line + seq!['\n'] + rest) == own
                + entries(rest)
            &&& entries(line + seq!['\r', '\n'] + rest) == own + entries(rest)
            &&& line.len() > 0 ==> entries(line) == own
        }),
        entries(Seq::<char>::empty()) == Seq::<(Seq<char>, u16)>::empty(),
{
    crate::text::lines_end_at_feeds(line, rest);
    let own = match entry_of_line(line) {
        Some(e) => seq![e],
        None => Seq::empty(),
    };
    let all = seq![line] + lines(rest);
    assert(all.drop_first() =~= lines(rest));
    assert(all[0] == line);
    assert(entries_of_lines(all) =~= own + entries(rest));
    if line.len() > 0 {
        assert(seq![line].drop_first() =~= Seq::<Seq<char>>::empty());
        assert(entries_of_lines(Seq::<Seq<char>>::empty()) =~= Seq::<(Seq<char>, u16)>::empty());
        assert(entries(line) =~= own);
    }
}

/// The port of a name is that of its last entry, and a name without an entry has none.
pub proof fn last_entry_of_a_name_counts(list: Seq<(Seq<char>, u16)>, name: Seq<char>, i: int)
    ensures
        0 <= i < list.len() && list[i].0 == name && (forall|j: int|
            i < j < list.len() ==> (#[trigger] list[j]).0 != name) ==> port_for(list, name) == Some(
            list[i].1,
        ),
        (forall|j: int| 0 <= j < list.len() ==> (#[trigger] list[j]).0 != name) <==> port_for(
            list,
            name,
        ) is None,
    decreases list.len(),
{
    if list.len() > 0 {
        let front = list.drop_last();
        assert(forall|j: int| 0 <= j < front.len() ==> front[j] == list[j]);
        last_entry_of_a_name_counts(front, name, i);
        assert(list[list.len() - 1] == list.last());
        if list.last().0 != name {
            if port_for(list, name) is None {
                assert forall|j: int| 0 <= j < list.len() implies (#[trigger] list[j]).0 != name by {
                    if j < front.len() {
                        assert(front[j].0 != name);
                    }
                }
            }
            if forall|j: int| 0 <= j < list.len() ==> (#[trigger] list[j]).0 != name {
                assert forall|j: int| 0 <= j < front.len() implies (#[trigger] front[j]).0
                    != name by {
                    assert(list[j].0 != name);
                }
            }
            if 0 <= i < front.len() && list[i].0 == name && (forall|j: int|
                i < j < list.len() ==> (#[trigger] list[j]).0 != name) {
                assert forall|j: int| i < j < front.len() implies (#[trigger] front[j]).0 != name by {
                    assert(list[j].0 != name);
                }
            }
        } else {
            assert(0 <= i < front.len() ==> list[list.len() - 1].0 == name);
        }
    }
}

/// The user of a port is that of its last entry, and a port without an entry has none.
pub proof fn last_entry_of_a_port_counts(list: Seq<(Seq<char>, u16)>, port: u16, i: int)
    ensures
        0 <= i < list.len() && list[i].1 == port && (forall|j: int|
            i < j < list.len() ==> (#[trigger] list[j]).1 != port) ==> name_for(list, port) == Some(
            list[i].0,
        ),
        (forall|j: int| 0 <= j < list.len() ==> (#[trigger] list[j]).1 != port) <==> name_for(
            list,
            port,
        ) is None,
    decreases list.len(),
{
    if list.len() > 0 {
        let front = list.drop_last();
        assert(forall|j: int| 0 <= j < front.len() ==> front[j] == list[j]);
        last_entry_of_a_port_counts(front, port, i);
        assert(list[list.len() - 1] == list.last());
        if list.last().1 != port {
            if name_for(list, port) is None {
                assert forall|j: int| 0 <= j < list.len() implies (#[trigger] list[j]).1 != port by {
                    if j < front.len() {
                        assert(front[j].1 != port);
                    }
                }
            }
            if forall|j: int| 0 <= j < list.len() ==> (#[trigger] list[j]).1 != port {
                assert forall|j: int| 0 <= j < front.len() implies (#[trigger] front[j]).1
                    != port by {
                    assert(list[j].1 != port);
                }
            }
            if 0 <= i < front.len() && list[i].1 == port && (forall|j: int|
                i < j < list.len() ==> (#[trigger] list[j]).1 != port) {
                assert forall|j: int| i < j < front.len() implies (#[trigger] front[j]).1 != port by {
                    assert(list[j].1 != port);
                }
            }
        } else {
            assert(0 <= i < front.len() ==> list[list.len() - 1].1 == port);
        }
    }
}

/// The table that is written holds every user of the table that was read, once, with the port of
/// the last entry, and nobody else.
pub proof fn every_user_stays_once(list: Seq<(Seq<char>, u16)>, i: int)
    ensures
        0 <= i < list.len() && (forall|j: int|
            i < j < list.len() ==> (#[trigger] list[j]).0 != list[i].0) ==> merged(list).contains(
            list[i],
        ),
        forall|k: int| 0 <= k < merged(list).len() ==> list.contains(#[trigger] merged(list)[k]),
        forall|k: int, l: int|
            0 <= k < l < merged(list).len() ==> (#[trigger] merged(list)[k]).0 != (
            #[trigger] merged(list)[l]).0,
{
    lemma_merged_distinct(list);
    if 0 <= i < list.len() && (forall|j: int|
        i < j < list.len() ==> (#[trigger] list[j]).0 != list[i].0) {
        last_entry_of_a_name_counts(list, list[i].0, i);
        lemma_table_port(list, list[i].0);
        lemma_position_of(merged(list), list[i].0);
        let at = position_of(merged(list), list[i].0);
        assert(merged(list)[at] == list[i]);
    }
    assert forall|k: int| 0 <= k < merged(list).len() implies list.contains(
        #[trigger] merged(list)[k],
    ) by {
        let e = merged(list)[k];
        lemma_merged_ports(list, e.0);
        lemma_port_at(merged(list), k);
        let m = lemma_port_has_entry(list, e.0);
        assert(list[m] == e);
    }
}

proof fn lemma_port_has_entry(list: Seq<(Seq<char>, u16)>, name: Seq<char>) -> (i: int)
    requires
        port_for(list, name) is Some,
    ensures
        0 <= i < list.len(),
        list[i].0 == name,
        port_for(list, name) == Some(list[i].1),
    decreases list.len(),
{
    if list.last().0 == name {
        list.len() - 1
    } else {
        lemma_port_has_entry(list.drop_last(), name)
    }
}

/// The next port is two above that of some entry and of every other at least as much; without
/// entries it is the default one.
pub proof fn next_port_is_two_above_the_highest(
    list: Seq<(Seq<char>, u16)>,
    default_port: u16,
)
    ensures
        list.len() == 0 ==> next_port(list, default_port) == default_port,
        list.len() > 0 ==> exists|i: int|
            0 <= i < list.len() && (#[trigger] list[i]).1 + 2 == next_port(list, default_port),
        forall|i: int|
            0 <= i < list.len() ==> (#[trigger] list[i]).1 + 2 <= next_port(list, default_port),
    decreases list.len(),
{
    lemma_highest(list);
    if list.len() > 0 {
        let i = lemma_highest_is_there(list);
        assert(list[i].1 + 2 == next_port(list, default_port));
    }
}

proof fn lemma_highest_is_there(list: Seq<(Seq<char>, u16)>) -> (i: int)
    requires
        list.len() > 0,
    ensures
        0 <= i < list.len(),
        highest(list) == Some(list[i].1),
    decreases list.len(),
{
    let front = list.drop_last();
    if front.len() == 0 {
        0
    } else {
        let i = lemma_highest_is_there(front);
        if front[i].1 > list.last().1 {
            i
        } else {
            list.len() - 1
        }
    }
}

/// A user can be given a port just where the user has one already, or the default port is at
/// least two and no entry that counts has a port above 65533.
pub proof fn port_can_be_given(content: Seq<char>, username: Seq<char>, default_port: u16)
    ensures
        port_assignable(content, username, default_port) <==> (port_for(entries(content), username)
            is Some || (default_port >= 2 && forall|i: int|
            0 <= i < merged(entries(content)).len() ==> (#[trigger] merged(entries(content))[i]).1
                <= 65533)),
{
    let table = merged(entries(content));
    lemma_highest(table);
    if table.len() > 0 {
        let i = lemma_highest_is_there(table);
        assert(table[i].1 == highest(table)->0);
    }
}

/// The table is written line by line: a name, a colon, the port and a line feed.
pub proof fn table_is_written_line_by_line(
    a: Seq<(Seq<char>, u16)>,
    b: Seq<(Seq<char>, u16)>,
    e: (Seq<char>, u16),
)
    ensures
        rendered(Seq::<(Seq<char>, u16)>::empty()) == Seq::<char>::empty(),
        rendered(a + b) == rendered(a) + rendered(b),
        rendered(seq![e]) == e.0 + seq![':'] + decimal(e.1 as nat) + seq!['\n'],
    decreases b.len(),
{
    reveal_strlit(":");
    reveal_strlit("\n");
    reveal_with_fuel(rendered, 2);
    assert(seq![e].drop_last() =~= Seq::<(Seq<char>, u16)>::empty());
    assert(rendered(seq![e]) =~= e.0 + seq![':'] + decimal(e.1 as nat) + seq!['\n']);
    if b.len() == 0 {
        assert(a + b =~= a);
        assert(rendered(a) + rendered(b) =~= rendered(a));
    } else {
        table_is_written_line_by_line(a, b.drop_last(), e);
        assert((a + b).drop_last() =~= a + b.drop_last());
        assert((a + b).last() == b.last());
        assert(rendered(a + b) =~= rendered(a) + rendered(b));
    }
}

} // verus!
