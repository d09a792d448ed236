//! The controller's search for workers and their monitors.
use vstd::prelude::*;
use vstd::slice::slice_subrange;

use crate::control::{monitor_id, unique_id};
use crate::names::{evt_name_for, object_name, shm_name_for};
use crate::ports::{entries, listed, read_entries, PortEntry};
use crate::text::{
    ascii_lower, chars_of, decimal, decimal_reads_back, is_ascii_text, lowercase, parse_unsigned,
    push_decimal, same_chars, same_text, unsigned_value,
};

verus! {

/// How many monitors of a worker the controller looks for.
pub const MONITOR_SLOTS: usize = 8;

/// Whether a name in lower case is `user` and a number from 1 to 100, written without a sign and
/// without leading zeros.
pub open spec fn is_numbered_user(lower: Seq<char>) -> bool {
    exists|n: nat| 1 <= n <= 100 && lower == "user"@ + #[trigger] decimal(n)
}

/// What stands behind `user` in the name of a numbered user is the notation of its number.
proof fn lemma_numbered_user(lower: Seq<char>)
    requires
        is_numbered_user(lower),
    ensures
        lower.len() >= 4,
        lower.take(4) == "user"@,
        match unsigned_value(lower.skip(4), 0xFFFF_FFFF) {
            Some(n) => 1 <= n <= 100 && lower.skip(4) == decimal(n),
            None => false,
        },
{
    reveal_strlit("user");
    let n = choose|n: nat| 1 <= n <= 100 && lower == "user"@ + #[trigger] decimal(n);
    decimal_reads_back(n, 0xFFFF_FFFF);
    assert(lower.take(4) =~= "user"@);
    assert(lower.skip(4) =~= decimal(n));
}

/// Whether the controller of user `me` watches the worker of a user: one of the numbered
/// users, and not `me`.
pub open spec fn is_watched(name: Seq<char>, me: Seq<char>) -> bool {
    is_numbered_user(lowercase(name)) && lowercase(name) != lowercase(me)
}

/// Tells whether the name of a user is `user` and a number from 1 to 100, in any case.
pub fn is_worker_user(name: &str) -> (found: bool)
    ensures
        found == is_numbered_user(lowercase(name@)),
        is_ascii_text(name@) ==> found == is_numbered_user(
            name@.map_values(|c: char| ascii_lower(c)),
        ),
{
    let lower: Vec<char> = chars_of(name.to_lowercase().as_str());
    proof {
        if is_numbered_user(lower@) {
            lemma_numbered_user(lower@);
        }
    }
    if lower.len() < 4 {
        return false;
    }
    let front: &[char] = slice_subrange(lower.as_slice(), 0, 4);
    let number: &[char] = slice_subrange(lower.as_slice(), 4, lower.len());
    assert(front@ =~= lower@.take(4));
    assert(number@ =~= lower@.skip(4));
    if !same_chars(front, chars_of("user").as_slice()) {
        return false;
    }
    match parse_unsigned(number, 0xFFFF_FFFF) {
        Some(n) => {
            let mut notation: String = String::new();
            push_decimal(&mut notation, n as u64);
            assert(notation@ =~= decimal(n as nat));
            assert(lower@ =~= lower@.take(4) + lower@.skip(4));
            1 <= n && n <= 100 && same_chars(number, chars_of(notation.as_str()).as_slice())
        },
        None => false,
    }
}

/// The numbered users are those from 1 to 100.
pub proof fn numbered_users_are_1_to_100(n: nat)
    ensures
        is_numbered_user("user"@ + decimal(n)) == (1 <= n <= 100),
{
    reveal_strlit("user");
    decimal_reads_back(n, 0xFFFF_FFFF);
    let name = "user"@ + decimal(n);
    assert(name.skip(4) =~= decimal(n));
    if is_numbered_user(name) {
        lemma_numbered_user(name);
    }
}

/// The names in a list of strings.
pub open spec fn texts(list: Seq<String>) -> Seq<Seq<char>> {
    list.map_values(|s: String| s@)
}

/// The names that were met, after some more entries.
pub open spec fn met(known: Seq<Seq<char>>, list: Seq<(Seq<char>, u16)>) -> Seq<Seq<char>>
    decreases list.len(),
{
    if list.len() == 0 {
        known
    } else {
        let before = met(known, list.drop_last());
        if before.contains(list.last().0) {
            before
        } else {
            before.push(list.last().0)
        }
    }
}

/// The workers to watch among some entries: those of names not met before that are watched.
pub open spec fn discovered(
    known: Seq<Seq<char>>,
    list: Seq<(Seq<char>, u16)>,
    me: Seq<char>,
) -> Seq<(Seq<char>, u16)>
    decreases list.len(),
{
    if list.len() == 0 {
        Seq::empty()
    } else {
        let before = discovered(known, list.drop_last(), me);
        let name = list.last().0;
        if !met(known, list.drop_last()).contains(name) && is_watched(name, me) {
            before.push(list.last())
        } else {
            before
        }
    }
}

fn has_name(list: &Vec<String>, name: &str) -> (found: bool)
    ensures
        found == texts(list@).contains(name@),
{
    let mut i: usize = 0;
    while i < list.len()
        invariant
            i <= list@.len(),
            forall|j: int| 0 <= j < i ==> #[trigger] texts(list@)[j] != name@,
        decreases list@.len() - i,
    {
        assert(texts(list@)[i as int] == list@[i as int]@);
        if same_text(list[i].as_str(), name) {
            return true;
        }
        i = i + 1;
    }
    false
}

/// Looks through the table of ports for workers that were not met before. `active_users`
/// keeps the names that were met, those that are not watched among them.
pub fn discover(
    active_users: &mut Vec<String>,
    content: &str,
    my_name: &str,
) -> (found: Vec<PortEntry>)
    ensures
        texts(final(active_users)@) == met(texts(old(active_users)@), entries(content@)),
        listed(found@) == discovered(texts(old(active_users)@), entries(content@), my_name@),
{
    let list: Vec<PortEntry> = read_entries(content);
    let my_lower: String = my_name.to_lowercase();
    let ghost known = texts(active_users@);
    let ghost all = listed(list@);
    let mut found: Vec<PortEntry> = Vec::new();
    let mut i: usize = 0;
    assert(listed(found@) =~= discovered(known, all.take(0), my_name@));
    while i < list.len()
        invariant
            i <= list@.len(),
            all == listed(list@),
            my_lower@ == lowercase(my_name@),
            texts(active_users@) == met(known, all.take(i as int)),
            listed(found@) == discovered(known, all.take(i as int), my_name@),
        decreases list@.len() - i,
    {
        let name: &str = list[i].name.as_str();
        let ghost upto = all.take(i as int + 1);
        proof {
            assert(upto.drop_last() =~= all.take(i as int));
            assert(upto.last() == list@[i as int]@);
        }
        if !has_name(active_users, name) {
            let ghost before = active_users@;
            active_users.push(name.to_owned());
            assert(texts(active_users@) =~= texts(before).push(name@));
            if is_worker_user(name) && !same_text(name.to_lowercase().as_str(), my_lower.as_str()) {
                let ghost before = found@;
                let e: PortEntry = PortEntry { name: name.to_owned(), port: list[i].port };
                found.push(e);
                assert(listed(found@) =~= listed(before).push(upto.last()));
            }
        }
        i = i + 1;
    }
    assert(all.take(list@.len() as int) =~= all);
    found
}

/// A monitor to look for.
#[derive(Debug, PartialEq, Eq)]
pub struct MonitorSlot {
    pub m_idx: usize,
    pub shm_name: String,
    pub evt_name: String,
    pub unique_id: u32,
}

/// The indices below `n` that are not in `open`, in order.
pub open spec fn free_indices(open: Seq<usize>, n: nat) -> Seq<int>
    decreases n,
{
    if n == 0 {
        Seq::empty()
    } else {
        let before = free_indices(open, (n - 1) as nat);
        if open.contains((n - 1) as usize) {
            before
        } else {
            before.push(n - 1)
        }
    }
}

/// Whether a slot is the one of a user's monitor.
pub open spec fn is_slot_of(
    slot: MonitorSlot,
    username: Seq<char>,
    port: u16,
    m_idx: int,
) -> bool {
    &&& slot.m_idx == m_idx
    &&& slot.shm_name@ == object_name("Global\\AsterShm_"@, username, m_idx as nat)
    &&& slot.evt_name@ == object_name("Global\\AsterEvt_"@, username, m_idx as nat)
    &&& slot.unique_id == monitor_id(port, m_idx)
}

fn has_index(list: &Vec<usize>, m_idx: usize) -> (found: bool)
    ensures
        found == list@.contains(m_idx),
{
    let mut i: usize = 0;
    while i < list.len()
        invariant
            i <= list@.len(),
            forall|j: int| 0 <= j < i ==> list@[j] != m_idx,
        decreases list@.len() - i,
    {
        if list[i] == m_idx {
            return true;
        }
        i = i + 1;
    }
    false
}

/// The monitors of a user's worker to look for: those that are not open yet.
pub fn slots_to_try(username: &str, port: u16, open: &Vec<usize>) -> (slots: Vec<MonitorSlot>)
    ensures
        slots@.len() == free_indices(open@, MONITOR_SLOTS as nat).len(),
        forall|i: int|
            0 <= i < slots@.len() ==> is_slot_of(
                #[trigger] slots@[i],
                username@,
                port,
                free_indices(open@, MONITOR_SLOTS as nat)[i],
            ),
{
    let mut slots: Vec<MonitorSlot> = Vec::new();
    let mut m_idx: usize = 0;
    while m_idx < MONITOR_SLOTS
        invariant
            m_idx <= MONITOR_SLOTS,
            slots@.len() == free_indices(open@, m_idx as nat).len(),
            forall|i: int|
                0 <= i < slots@.len() ==> is_slot_of(
                    #[trigger] slots@[i],
                    username@,
                    port,
                    free_indices(open@, m_idx as nat)[i],
                ),
        decreases MONITOR_SLOTS - m_idx,
    {
        if !has_index(open, m_idx) {
            slots.push(
                MonitorSlot {
                    m_idx,
                    shm_name: shm_name_for(username, m_idx),
                    evt_name: evt_name_for(username, m_idx),
                    unique_id: unique_id(port, m_idx),
                },
            );
        }
        m_idx = m_idx + 1;
    }
    slots
}

// ---------------------------------------------------------------------------------------
// What holds of the search
// ---------------------------------------------------------------------------------------

/// Every name among the entries has been met, and every name met before still is.
proof fn lemma_met_all(known: Seq<Seq<char>>, list: Seq<(Seq<char>, u16)>)
    ensures
        forall|name: Seq<char>| known.contains(name) ==> #[trigger] met(known, list).contains(name),
        forall|i: int| 0 <= i < list.len() ==> met(known, list).contains((#[trigger] list[i]).0),
    decreases list.len(),
{
    if list.len() > 0 {
        let front = list.drop_last();
        let before = met(known, front);
        let after = met(known, list);
        lemma_met_all(known, front);
        assert forall|name: Seq<char>| before.contains(name) implies #[trigger] after.contains(
            name,
        ) by {
            let k = choose|k: int| 0 <= k < before.len() && before[k] == name;
            assert(after[k] == name);
        }
        assert(after.contains(list.last().0)) by {
            if !before.contains(list.last().0) {
                assert(after[before.len() as int] == list.last().0);
            }
        }
        assert forall|i: int| 0 <= i < list.len() implies after.contains(
            (#[trigger] list[i]).0,
        ) by {
            if i < front.len() {
                assert(front[i] == list[i]);
                assert(before.contains(front[i].0));
            }
        }
    }
}

proof fn lemma_nothing_new(
    known: Seq<Seq<char>>,
    list: Seq<(Seq<char>, u16)>,
    me: Seq<char>,
)
    requires
        forall|i: int| 0 <= i < list.len() ==> known.contains((#[trigger] list[i]).0),
    ensures
        discovered(known, list, me) == Seq::<(Seq<char>, u16)>::empty(),
        met(known, list) == known,
    decreases list.len(),
{
    if list.len() > 0 {
        let front = list.drop_last();
        assert forall|i: int| 0 <= i < front.len() implies known.contains(
            (#[trigger] front[i]).0,
        ) by {
            assert(front[i] == list[i]);
        }
        lemma_nothing_new(known, front, me);
        assert(known.contains(list[list.len() - 1].0));
    }
}

/// No worker is found twice: a second look at the same table finds nothing and remembers
/// nothing new.
pub proof fn second_look_finds_nothing(
    known: Seq<Seq<char>>,
    content: Seq<char>,
    me: Seq<char>,
)
    ensures
        discovered(met(known, entries(content)), entries(content), me) == Seq::<
            (Seq<char>, u16),
        >::empty(),
        met(met(known, entries(content)), entries(content)) == met(known, entries(content)),
{
    lemma_met_all(known, entries(content));
    lemma_nothing_new(met(known, entries(content)), entries(content), me);
}

/// Whatever is found is a numbered user other than the controller's own, was not met before,
/// and has been met afterwards.
pub proof fn found_workers_are_new_and_watched(
    known: Seq<Seq<char>>,
    list: Seq<(Seq<char>, u16)>,
    me: Seq<char>,
    i: int,
)
    requires
        0 <= i < discovered(known, list, me).len(),
    ensures
        is_watched(discovered(known, list, me)[i].0, me),
        !known.contains(discovered(known, list, me)[i].0),
        met(known, list).contains(discovered(known, list, me)[i].0),
        list.contains(discovered(known, list, me)[i]),
    decreases list.len(),
{
    let front = list.drop_last();
    let before = discovered(known, front, me);
    lemma_met_all(known, front);
    lemma_met_all(known, list);
    if i < before.len() {
        found_workers_are_new_and_watched(known, front, me, i);
        assert(before[i] == discovered(known, list, me)[i]);
        let k = choose|k: int| 0 <= k < front.len() && front[k] == before[i];
        assert(list[k] == before[i]);
    } else {
        assert(discovered(known, list, me)[i] == list.last());
        assert(list[list.len() - 1] == list.last());
    }
}

/// A name has been met only if it was known or is among the entries.
proof fn lemma_met_source(known: Seq<Seq<char>>, list: Seq<(Seq<char>, u16)>, name: Seq<char>)
    requires
        met(known, list).contains(name),
        !known.contains(name),
    ensures
        exists|j: int| 0 <= j < list.len() && (#[trigger] list[j]).0 == name,
    decreases list.len(),
{
    if list.len() > 0 {
        let front = list.drop_last();
        let before = met(known, front);
        if before.contains(name) {
            lemma_met_source(known, front, name);
            let j = choose|j: int| 0 <= j < front.len() && (#[trigger] front[j]).0 == name;
            assert(list[j].0 == name);
        } else {
            let after = met(known, list);
            let k = choose|k: int| 0 <= k < after.len() && after[k] == name;
            if k < before.len() {
                assert(before[k] == name);
            }
            assert(list[list.len() - 1].0 == name);
        }
    }
}

/// No worker is missed: every watched user among the entries that was not met before is found.
pub proof fn every_new_worker_is_found(
    known: Seq<Seq<char>>,
    list: Seq<(Seq<char>, u16)>,
    me: Seq<char>,
    i: int,
)
    requires
        0 <= i < list.len(),
        is_watched(list[i].0, me),
        !known.contains(list[i].0),
    ensures
        exists|k: int|
            0 <= k < discovered(known, list, me).len() && (#[trigger] discovered(
                known,
                list,
                me,
            )[k]).0 == list[i].0,
    decreases list.len(),
{
    let front = list.drop_last();
    let before = discovered(known, front, me);
    let after = discovered(known, list, me);
    let name = list[i].0;
    if i < front.len() || met(known, front).contains(name) {
        let j = if i < front.len() {
            i
        } else {
            lemma_met_source(known, front, name);
            choose|j: int| 0 <= j < front.len() && (#[trigger] front[j]).0 == name
        };
        assert(front[j].0 == name);
        every_new_worker_is_found(known, front, me, j);
        let k = choose|k: int| 0 <= k < before.len() && (#[trigger] before[k]).0 == name;
        assert(after[k] == before[k]);
    } else {
        assert(after[before.len() as int].0 == name);
    }
}

/// No worker is found twice in one look either.
pub proof fn found_workers_are_distinct(
    known: Seq<Seq<char>>,
    list: Seq<(Seq<char>, u16)>,
    me: Seq<char>,
    i: int,
    j: int,
)
    requires
        0 <= i < j < discovered(known, list, me).len(),
    ensures
        discovered(known, list, me)[i].0 != discovered(known, list, me)[j].0,
    decreases list.len(),
{
    let front = list.drop_last();
    let before = discovered(known, front, me);
    let after = discovered(known, list, me);
    assert(after[i] == before[i]);
    if j < before.len() {
        assert(after[j] == before[j]);
        found_workers_are_distinct(known, front, me, i, j);
    } else {
        found_workers_are_new_and_watched(known, front, me, i);
    }
}

/// The texts of a list are taken one by one.
pub proof fn names_are_texts(list: Seq<String>, i: int)
    requires
        0 <= i < list.len(),
    ensures
        texts(list).len() == list.len(),
        texts(list)[i] == list[i]@,
{
}

/// Whoever is to be found is. An entry of a user whose name in lower case is `user` and a number
/// from 1 to 100, and is not the controller's own name in lower case, is found, with its port,
/// where the name was not met before and this is its first entry. Whether the one name is a part
/// of the other does not matter.
pub proof fn every_other_numbered_user_is_found(
    known: Seq<Seq<char>>,
    list: Seq<(Seq<char>, u16)>,
    me: Seq<char>,
    i: int,
    n: nat,
)
    ensures
        0 <= i < list.len() && 1 <= n <= 100 && lowercase(list[i].0) == "user"@ + decimal(n)
            && lowercase(list[i].0) != lowercase(me) && !known.contains(list[i].0) && (forall|j: int|
            0 <= j < i ==> (#[trigger] list[j]).0 != list[i].0) ==> discovered(
            known,
            list,
            me,
        ).contains(list[i]),
    decreases list.len(),
{
    if 0 <= i < list.len() && 1 <= n <= 100 && lowercase(list[i].0) == "user"@ + decimal(n)
        && lowercase(list[i].0) != lowercase(me) && !known.contains(list[i].0) && (forall|j: int|
        0 <= j < i ==> (#[trigger] list[j]).0 != list[i].0) {
        let front = list.drop_last();
        let before = discovered(known, front, me);
        let after = discovered(known, list, me);
        if i < front.len() {
            assert(front[i] == list[i]);
            assert forall|j: int| 0 <= j < i implies (#[trigger] front[j]).0 != front[i].0 by {
                assert(list[j].0 != list[i].0);
            }
            every_other_numbered_user_is_found(known, front, me, i, n);
            let k = choose|k: int| 0 <= k < before.len() && before[k] == list[i];
            assert(after[k] == list[i]);
        } else {
            if met(known, front).contains(list[i].0) {
                lemma_met_source(known, front, list[i].0);
                let j = choose|j: int|
                    0 <= j < front.len() && (#[trigger] front[j]).0 == list[i].0;
                assert(list[j].0 == list[i].0);
            }
            assert(is_numbered_user(lowercase(list[i].0)));
            assert(after.last() == list[i]);
            assert(after[after.len() - 1] == list[i]);
        }
    }
}

/// Nobody else is found: whoever is found is among the entries, was not met before, is `user` and
/// a number from 1 to 100 in lower case, and is not the controller's own user in lower case.
pub proof fn nobody_else_is_found(
    known: Seq<Seq<char>>,
    list: Seq<(Seq<char>, u16)>,
    me: Seq<char>,
    k: int,
) -> (n: nat)
    requires
        0 <= k < discovered(known, list, me).len(),
    ensures
        1 <= n <= 100,
        lowercase(discovered(known, list, me)[k].0) == "user"@ + decimal(n),
        lowercase(discovered(known, list, me)[k].0) != lowercase(me),
        !known.contains(discovered(known, list, me)[k].0),
        list.contains(discovered(known, list, me)[k]),
{
    found_workers_are_new_and_watched(known, list, me, k);
    let lower = lowercase(discovered(known, list, me)[k].0);
    choose|n: nat| 1 <= n <= 100 && lower == "user"@ + #[trigger] decimal(n)
}

/// A numbered user is `user` and the notation of a number from 1 to 100, and nothing else is.
pub proof fn numbered_users_are_user_and_number(lower: Seq<char>, n: nat)
    ensures
        1 <= n <= 100 ==> is_numbered_user("user"@ + decimal(n)),
        is_numbered_user(lower) ==> exists|m: nat|
            1 <= m <= 100 && lower == "user"@ + #[trigger] decimal(m),
{
}

/// A table can be looked through in parts: what is found in two parts is what is found in the
/// first and then what is found in the second with the names of the first met.
pub proof fn table_can_be_looked_through_in_parts(
    known: Seq<Seq<char>>,
    a: Seq<(Seq<char>, u16)>,
    b: Seq<(Seq<char>, u16)>,
    me: Seq<char>,
)
    ensures
        discovered(known, a + b, me) == discovered(known, a, me) + discovered(
            met(known, a),
            b,
            me,
        ),
        met(known, a + b) == met(met(known, a), b),
        discovered(known, Seq::<(Seq<char>, u16)>::empty(), me).len() == 0,
        met(known, Seq::<(Seq<char>, u16)>::empty()) == known,
    decreases b.len(),
{
    if b.len() == 0 {
        assert(a + b =~= a);
        assert(discovered(known, a, me) + discovered(met(known, a), b, me) =~= discovered(
            known,
            a,
            me,
        ));
    } else {
        table_can_be_looked_through_in_parts(known, a, b.drop_last(), me);
        assert((a + b).drop_last() =~= a + b.drop_last());
        assert((a + b).last() == b.last());
        assert(discovered(known, a + b, me) =~= discovered(known, a, me) + discovered(
            met(known, a),
            b,
            me,
        ));
    }
}

/// One entry makes its name met, behind those that were, where it was not among them. Names that
/// were met stay, in order.
pub proof fn names_are_met_once(known: Seq<Seq<char>>, list: Seq<(Seq<char>, u16)>, e: (Seq<char>, u16))
    ensures
        known.contains(e.0) ==> met(known, seq![e]) == known,
        !known.contains(e.0) ==> met(known, seq![e]) == known.push(e.0),
        met(known, list).len() >= known.len() && met(known, list).take(known.len() as int) == known,
    decreases list.len(),
{
    reveal_with_fuel(met, 2);
    assert(seq![e].drop_last() =~= Seq::<(Seq<char>, u16)>::empty());
    if list.len() > 0 {
        names_are_met_once(known, list.drop_last(), e);
        let before = met(known, list.drop_last());
        assert(met(known, list).take(known.len() as int) =~= before.take(known.len() as int));
    } else {
        assert(known.take(known.len() as int) =~= known);
    }
}

/// The indices to try are those below the limit that are not open, from the lowest up.
pub proof fn free_indices_are_those_not_open(open: Seq<usize>, n: nat, i: int, j: int)
    requires
        n <= 100,
    ensures
        0 <= i < n && !open.contains(i as usize) ==> free_indices(open, n).contains(i),
        0 <= i < free_indices(open, n).len() ==> {
            &&& 0 <= free_indices(open, n)[i] < n
            &&& !open.contains(free_indices(open, n)[i] as usize)
        },
        0 <= i < j < free_indices(open, n).len() ==> free_indices(open, n)[i] < free_indices(
            open,
            n,
        )[j],
    decreases n,
{
    if n > 0 {
        let before = free_indices(open, (n - 1) as nat);
        let after = free_indices(open, n);
        free_indices_are_those_not_open(open, (n - 1) as nat, i, j);
        if 0 <= i < n && !open.contains(i as usize) {
            if i < n - 1 {
                let k = choose|k: int| 0 <= k < before.len() && before[k] == i;
                assert(after[k] == i);
            } else {
                assert(after[before.len() as int] == i);
            }
        }
        if 0 <= i < j < after.len() && j >= before.len() {
            free_indices_are_those_not_open(open, (n - 1) as nat, i, i);
        }
    }
}

/// A slot to try has the index and the names of its monitor, and its number is one hundred times
/// the port and the index.
pub proof fn slot_is_that_of_its_monitor(
    slot: MonitorSlot,
    username: Seq<char>,
    port: u16,
    m_idx: int,
)
    requires
        0 <= m_idx,
        is_slot_of(slot, username, port, m_idx),
    ensures
        slot.m_idx == m_idx,
        slot.unique_id == 100 * port + m_idx,
        slot.shm_name@ == object_name("Global\\AsterShm_"@, username, m_idx as nat),
        slot.evt_name@ == object_name("Global\\AsterEvt_"@, username, m_idx as nat),
{
}

/// Eight monitors of a worker are looked for: every index from 0 to 7 that is not open is tried,
/// and no other.
pub proof fn eight_monitors_are_tried(open: Seq<usize>, i: int)
    ensures
        0 <= i < 8 && !open.contains(i as usize) ==> free_indices(
            open,
            MONITOR_SLOTS as nat,
        ).contains(i),
        free_indices(open, MONITOR_SLOTS as nat).contains(i) ==> 0 <= i < 8 && !open.contains(
            i as usize,
        ),
{
    free_indices_are_those_not_open(open, MONITOR_SLOTS as nat, i, i);
    if free_indices(open, MONITOR_SLOTS as nat).contains(i) {
        let k = choose|k: int|
            0 <= k < free_indices(open, MONITOR_SLOTS as nat).len() && free_indices(
                open,
                MONITOR_SLOTS as nat,
            )[k] == i;
        free_indices_are_those_not_open(open, MONITOR_SLOTS as nat, k, k);
    }
}

} // verus!
