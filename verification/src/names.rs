//! The names under which controller and workers find each other's system objects.
//!
//! The name of a user may come from a file or from the environment, and the two may differ in
//! case. Object names therefore hold the user's name in lower case.
use vstd::prelude::*;

use crate::text::{
    alphanumeric, ascii_lower, chars_of, decimal, decimal_reads_back, is_ascii_char,
    is_ascii_letter, is_ascii_text, is_digit, lowercase, push_decimal, string_of,
};

verus! {

/// A user name with `_` in place of every character that is not alphanumeric.
pub open spec fn sanitised(username: Seq<char>) -> Seq<char> {
    username.map_values(
        |c: char|
            if alphanumeric(c) {
                c
            } else {
                '_'
            },
    )
}

/// The part of an object name that stands for a user: sanitised, then in lower case.
pub open spec fn user_part(username: Seq<char>) -> Seq<char> {
    lowercase(sanitised(username))
}

/// `prefix`, the part of a user, `_` and the number of a monitor.
pub open spec fn name_with(prefix: Seq<char>, part: Seq<char>, m_idx: nat) -> Seq<char> {
    prefix + part + "_"@ + decimal(m_idx)
}

/// The name of an object of a user's monitor.
pub open spec fn object_name(prefix: Seq<char>, username: Seq<char>, m_idx: nat) -> Seq<char> {
    name_with(prefix, user_part(username), m_idx)
}

/// Whether a text holds no backslash and no zero character.
pub open spec fn is_plain(s: Seq<char>) -> bool {
    forall|i: int| 0 <= i < s.len() ==> #[trigger] s[i] != '\\' && s[i] != '\0'
}

/// Whether a name is one in the global namespace, whole: it starts with `Global` and a backslash,
/// and after these holds neither another backslash nor a zero character.
pub open spec fn stays_global(name: Seq<char>) -> bool {
    &&& name.len() >= 7
    &&& name.take(7) == "Global\\"@
    &&& is_plain(name.skip(7))
}

/// The user's part of an object name for a user name of ASCII characters: letters in lower
/// case, digits, and `_` for anything else.
pub open spec fn ascii_user_part(username: Seq<char>) -> Seq<char> {
    username.map_values(
        |c: char|
            if is_digit(c) || is_ascii_letter(c) {
                ascii_lower(c)
            } else {
                '_'
            },
    )
}

/// A text with the letters `A` to `Z` in lower case.
pub open spec fn case_folded(s: Seq<char>) -> Seq<char> {
    s.map_values(|c: char| ascii_lower(c))
}

/// A user name, sanitised, with the letters `A` to `Z` in lower case, whatever else it holds.
pub open spec fn folded_part(username: Seq<char>) -> Seq<char> {
    username.map_values(
        |c: char|
            if is_digit(c) || is_ascii_letter(c) {
                ascii_lower(c)
            } else if !is_ascii_char(c) && alphanumeric(c) {
                c
            } else {
                '_'
            },
    )
}

/// Replaces every character that is not alphanumeric by `_`.
fn sanitise(username: &str) -> (out: String)
    ensures
        out@ == sanitised(username@),
        is_plain(out@),
        case_folded(out@) == folded_part(username@),
        is_ascii_text(username@) ==> is_ascii_text(out@) && case_folded(out@) == ascii_user_part(
            username@,
        ),
{
    let name: Vec<char> = chars_of(username);
    let mut out: Vec<char> = Vec::new();
    let mut i: usize = 0;
    while i < name.len()
        invariant
            i <= name@.len(),
            out@ == sanitised(name@.take(i as int)),
            forall|j: int|
                0 <= j < i && is_ascii_char(#[trigger] name@[j]) ==> alphanumeric(name@[j]) == (
                is_digit(name@[j]) || is_ascii_letter(name@[j])),
        decreases name@.len() - i,
    {
        let c: char = name[i];
        if c.is_alphanumeric() {
            out.push(c);
        } else {
            out.push('_');
        }
        assert(out@ =~= sanitised(name@.take(i as int + 1)));
        i = i + 1;
    }
    assert(name@.take(name@.len() as int) =~= name@);
    proof {
        assert forall|j: int| 0 <= j < out@.len() implies #[trigger] out@[j] != '\\' && out@[j]
            != '\0' by {
            assert(is_ascii_char(name@[j]) ==> alphanumeric(name@[j]) == (is_digit(name@[j])
                || is_ascii_letter(name@[j])));
        }
        let lower = case_folded(out@);
        assert forall|j: int| 0 <= j < out@.len() implies lower[j] == folded_part(
            username@,
        )[j] by {
            assert(lower[j] == ascii_lower(out@[j]));
            assert(is_ascii_char(name@[j]) ==> alphanumeric(name@[j]) == (is_digit(name@[j])
                || is_ascii_letter(name@[j])));
        }
        assert(lower =~= folded_part(username@));
        if is_ascii_text(username@) {
            assert forall|j: int| 0 <= j < out@.len() implies is_ascii_char(#[trigger] out@[j]) by {
                assert(is_ascii_char(name@[j]));
            }
            assert forall|j: int| 0 <= j < out@.len() implies lower[j] == ascii_user_part(
                username@,
            )[j] by {
                assert(is_ascii_char(username@[j]));
                assert(lower[j] == folded_part(username@)[j]);
            }
            assert(lower =~= ascii_user_part(username@));
        }
    }
    string_of(out.as_slice())
}

fn make_object_name(prefix: &str, username: &str, m_idx: usize) -> (name: String)
    requires
        stays_global(prefix@),
    ensures
        name@ == object_name(prefix@, username@, m_idx as nat),
        is_plain(sanitised(username@)),
        is_plain(user_part(username@)) ==> stays_global(name@),
        case_folded(sanitised(username@)) == folded_part(username@),
        is_ascii_text(sanitised(username@)) ==> name@ == name_with(
            prefix@,
            case_folded(sanitised(username@)),
            m_idx as nat,
        ) && stays_global(name@),
        is_ascii_text(username@) ==> is_ascii_text(sanitised(username@)) && name@ == name_with(
            prefix@,
            ascii_user_part(username@),
            m_idx as nat,
        ),
{
    let part: String = sanitise(username);
    let lower: String = part.to_lowercase();
    let mut name: String = String::new();
    name.append(prefix);
    name.append(lower.as_str());
    name.append("_");
    push_decimal(&mut name, m_idx as u64);
    proof {
        assert(name@ =~= object_name(prefix@, username@, m_idx as nat));
        if is_ascii_text(part@) {
            assert(lower@ =~= case_folded(part@));
            lemma_folded_is_plain(part@);
        }
        if is_plain(lower@) {
            lemma_stays_global(prefix@, lower@, m_idx as nat);
        }
    }
    name
}

/// A name whose user's part is plain stays global.
proof fn lemma_stays_global(prefix: Seq<char>, part: Seq<char>, m_idx: nat)
    requires
        stays_global(prefix),
        is_plain(part),
    ensures
        stays_global(name_with(prefix, part, m_idx)),
{
    reveal_strlit("_");
    decimal_reads_back(m_idx, m_idx);
    let name = name_with(prefix, part, m_idx);
    assert(name.take(7) =~= prefix.take(7));
    let rest = name.skip(7);
    let tail = prefix.skip(7);
    assert(rest =~= tail + part + "_"@ + decimal(m_idx));
    assert forall|i: int| 0 <= i < rest.len() implies #[trigger] rest[i] != '\\' && rest[i]
        != '\0' by {
        let k = i - tail.len();
        if k < 0 {
            assert(rest[i] == tail[i]);
        } else if k < part.len() {
            assert(rest[i] == part[k]);
        } else if k > part.len() {
            assert(rest[i] == decimal(m_idx)[k - part.len() - 1]);
            assert(is_digit(decimal(m_idx)[k - part.len() - 1]));
        }
    }
}

/// Lower case brings in no backslash and no zero character among ASCII letters.
proof fn lemma_folded_is_plain(s: Seq<char>)
    requires
        is_plain(s),
    ensures
        is_plain(case_folded(s)),
{
    assert forall|i: int| 0 <= i < case_folded(s).len() implies #[trigger] case_folded(s)[i] != '\\'
        && case_folded(s)[i] != '\0' by {
        let c = s[i];
        assert(case_folded(s)[i] == ascii_lower(c));
        if 'A' <= c && c <= 'Z' {
            assert(ascii_lower(c) as u32 == c as u32 + 32);
        }
    }
}

/// The name of the shared memory that holds the frames of a user's monitor. What is put into lower
/// case never holds a backslash or a zero character, and user names that differ in the case of
/// ASCII letters only differ in it no further. Where it is ASCII, so is the name, and the name
/// stays global.
pub fn shm_name_for(username: &str, m_idx: usize) -> (name: String)
    ensures
        name@ == object_name("Global\\AsterShm_"@, username@, m_idx as nat),
        is_plain(sanitised(username@)),
        is_plain(user_part(username@)) ==> stays_global(name@),
        case_folded(sanitised(username@)) == folded_part(username@),
        is_ascii_text(sanitised(username@)) ==> name@ == name_with(
            "Global\\AsterShm_"@,
            case_folded(sanitised(username@)),
            m_idx as nat,
        ) && stays_global(name@),
        is_ascii_text(username@) ==> is_ascii_text(sanitised(username@)) && name@ == name_with(
            "Global\\AsterShm_"@,
            ascii_user_part(username@),
            m_idx as nat,
        ),
{
    proof {
        reveal_strlit("Global\\AsterShm_");
        reveal_strlit("Global\\");
        assert("Global\\AsterShm_"@.take(7) =~= "Global\\"@);
    }
    make_object_name("Global\\AsterShm_", username, m_idx)
}

/// The name of the event that tells of a new frame of a user's monitor. What is put into lower
/// case never holds a backslash or a zero character, and user names that differ in the case of
/// ASCII letters only differ in it no further. Where it is ASCII, so is the name, and the name
/// stays global.
pub fn evt_name_for(username: &str, m_idx: usize) -> (name: String)
    ensures
        name@ == object_name("Global\\AsterEvt_"@, username@, m_idx as nat),
        is_plain(sanitised(username@)),
        is_plain(user_part(username@)) ==> stays_global(name@),
        case_folded(sanitised(username@)) == folded_part(username@),
        is_ascii_text(sanitised(username@)) ==> name@ == name_with(
            "Global\\AsterEvt_"@,
            case_folded(sanitised(username@)),
            m_idx as nat,
        ) && stays_global(name@),
        is_ascii_text(username@) ==> is_ascii_text(sanitised(username@)) && name@ == name_with(
            "Global\\AsterEvt_"@,
            ascii_user_part(username@),
            m_idx as nat,
        ),
{
    proof {
        reveal_strlit("Global\\AsterEvt_");
        reveal_strlit("Global\\");
        assert("Global\\AsterEvt_"@.take(7) =~= "Global\\"@);
    }
    make_object_name("Global\\AsterEvt_", username, m_idx)
}

/// The name of the lock that keeps a second instance from running: one controller for each
/// machine, one worker for each user.
pub fn instance_lock_name(is_worker: bool, username: &str) -> (name: String)
    ensures
        name@ == (if is_worker {
            "Global\\AsterDualWorkerMutex_"@ + username@
        } else {
            "Global\\AsterDualControllerMutex"@
        }),
{
    let mut name: String = String::new();
    if is_worker {
        name.append("Global\\AsterDualWorkerMutex_");
        name.append(username);
        assert(name@ =~= "Global\\AsterDualWorkerMutex_"@ + username@);
    } else {
        name.append("Global\\AsterDualControllerMutex");
        assert(name@ =~= "Global\\AsterDualControllerMutex"@);
    }
    name
}

/// Every monitor has names of its own: two shared memories, or two events, have the same name
/// just where they are those of the same monitor of users with the same part in object names.
/// And no shared memory has the name of an event.
pub proof fn monitors_have_their_own_names(a: Seq<char>, b: Seq<char>, i: nat, j: nat)
    ensures
        object_name("Global\\AsterShm_"@, a, i) == object_name("Global\\AsterShm_"@, b, j) <==> (i
            == j && user_part(a) == user_part(b)),
        object_name("Global\\AsterEvt_"@, a, i) == object_name("Global\\AsterEvt_"@, b, j) <==> (i
            == j && user_part(a) == user_part(b)),
        object_name("Global\\AsterShm_"@, a, i) != object_name("Global\\AsterEvt_"@, b, j),
{
    reveal_strlit("Global\\AsterShm_");
    reveal_strlit("Global\\AsterEvt_");
    if object_name("Global\\AsterShm_"@, a, i) == object_name("Global\\AsterShm_"@, b, j) {
        lemma_same_name("Global\\AsterShm_"@, user_part(a), user_part(b), i, j);
    }
    if object_name("Global\\AsterEvt_"@, a, i) == object_name("Global\\AsterEvt_"@, b, j) {
        lemma_same_name("Global\\AsterEvt_"@, user_part(a), user_part(b), i, j);
    }
    assert(object_name("Global\\AsterShm_"@, a, i)[12] == 'S');
    assert(object_name("Global\\AsterEvt_"@, b, j)[12] == 'E');
}

/// The last `_` of a name stands before its number, so the name tells part and number.
proof fn lemma_same_name(prefix: Seq<char>, p: Seq<char>, q: Seq<char>, i: nat, j: nat)
    requires
        name_with(prefix, p, i) == name_with(prefix, q, j),
    ensures
        i == j,
        p == q,
{
    reveal_strlit("_");
    let x = name_with(prefix, p, i);
    let y = name_with(prefix, q, j);
    let m = prefix.len() as int + p.len();
    let n = prefix.len() as int + q.len();
    decimal_reads_back(i, i);
    decimal_reads_back(j, j);
    assert(x[m] == '_');
    assert(y[n] == '_');
    assert(x.len() == m + 1 + decimal(i).len());
    assert(y.len() == n + 1 + decimal(j).len());
    if m < n {
        assert(x[n] == decimal(i)[n - m - 1]);
        assert(is_digit(decimal(i)[n - m - 1]));
    }
    if n < m {
        assert(y[m] == decimal(j)[m - n - 1]);
        assert(is_digit(decimal(j)[m - n - 1]));
    }
    assert(x.skip(m + 1) =~= decimal(i));
    assert(y.skip(m + 1) =~= decimal(j));
    assert(x.subrange(prefix.len() as int, m) =~= p);
    assert(y.subrange(prefix.len() as int, m) =~= q);
}

/// The case of a user name does not matter: of two names that differ in the case of ASCII letters
/// only, the same is put into lower case, the case of ASCII letters aside. Where that is ASCII for
/// one it is for the other, and both have the same object names.
pub proof fn case_does_not_matter(prefix: Seq<char>, a: Seq<char>, b: Seq<char>, m_idx: nat)
    requires
        case_folded(a) == case_folded(b),
    ensures
        folded_part(a) == folded_part(b),
        is_ascii_text(sanitised(a)) == is_ascii_text(sanitised(b)),
        name_with(prefix, folded_part(a), m_idx) == name_with(prefix, folded_part(b), m_idx),
{
    assert(case_folded(a).len() == a.len());
    assert(case_folded(b).len() == b.len());
    assert forall|i: int| 0 <= i < a.len() implies folded_part(a)[i] == folded_part(b)[i] by {
        lemma_same_folded(a, b, i);
    }
    assert(folded_part(a) =~= folded_part(b));
    if is_ascii_text(sanitised(a)) {
        lemma_ascii_alike(a, b);
    }
    if is_ascii_text(sanitised(b)) {
        lemma_ascii_alike(b, a);
    }
}

/// Two characters that differ in ASCII case only are both letters, or the same.
proof fn lemma_same_folded(a: Seq<char>, b: Seq<char>, i: int)
    requires
        case_folded(a) == case_folded(b),
        0 <= i < a.len(),
    ensures
        i < b.len(),
        ascii_lower(a[i]) == ascii_lower(b[i]),
        a[i] == b[i] || (is_ascii_letter(a[i]) && is_ascii_letter(b[i])),
{
    assert(case_folded(a).len() == a.len());
    assert(case_folded(b).len() == b.len());
    assert(case_folded(a)[i] == ascii_lower(a[i]));
    assert(case_folded(b)[i] == ascii_lower(b[i]));
}

proof fn lemma_ascii_alike(a: Seq<char>, b: Seq<char>)
    requires
        case_folded(a) == case_folded(b),
        is_ascii_text(sanitised(a)),
    ensures
        is_ascii_text(sanitised(b)),
{
    assert(case_folded(a).len() == a.len());
    assert(case_folded(b).len() == b.len());
    assert forall|i: int| 0 <= i < sanitised(b).len() implies is_ascii_char(
        #[trigger] sanitised(b)[i],
    ) by {
        lemma_same_folded(a, b, i);
        assert(is_ascii_char(sanitised(a)[i]));
    }
}

/// An object name is the prefix, the user's name in lower case with `_` for every character that
/// is neither a letter nor a digit, `_` and the number of the monitor.
pub proof fn object_name_is_built(
    prefix: Seq<char>,
    username: Seq<char>,
    part: Seq<char>,
    m_idx: nat,
)
    ensures
        part.len() == username.len() && (forall|i: int|
            0 <= i < part.len() ==> #[trigger] part[i] == (if alphanumeric(username[i]) {
                username[i]
            } else {
                '_'
            })) ==> {
            &&& sanitised(username) == part
            &&& object_name(prefix, username, m_idx) == prefix + lowercase(part) + seq!['_']
                + decimal(m_idx)
        },
        name_with(prefix, part, m_idx) == prefix + part + seq!['_'] + decimal(m_idx),
{
    reveal_strlit("_");
    assert("_"@ =~= seq!['_']);
    if part.len() == username.len() && (forall|i: int|
        0 <= i < part.len() ==> #[trigger] part[i] == (if alphanumeric(username[i]) {
            username[i]
        } else {
            '_'
        })) {
        assert(sanitised(username) =~= part);
    }
}

/// A name stays global just where it starts with `Global` and a backslash, this is its only
/// backslash, and it holds no zero character.
pub proof fn global_names_have_one_backslash(name: Seq<char>)
    ensures
        stays_global(name) <==> {
            &&& name.len() >= 7
            &&& name[0] == 'G' && name[1] == 'l' && name[2] == 'o' && name[3] == 'b' && name[4]
                == 'a' && name[5] == 'l'
            &&& forall|i: int|
                0 <= i < name.len() ==> (#[trigger] name[i] as int == 92 <==> i == 6) && name[i] as int
                    != 0
        },
        is_plain(name) <==> forall|i: int|
            0 <= i < name.len() ==> #[trigger] name[i] as int != 92 && name[i] as int != 0,
{
    reveal_strlit("Global\\");
    if stays_global(name) {
        assert forall|i: int| 0 <= i < name.len() implies (#[trigger] name[i] as int == 92 <==> i
            == 6) && name[i] as int != 0 by {
            if i < 7 {
                assert(name.take(7)[i] == "Global\\"@[i]);
            } else {
                assert(name.skip(7)[i - 7] == name[i]);
            }
        }
        assert(name.take(7)[0] == name[0]);
        assert(name.take(7)[1] == name[1]);
        assert(name.take(7)[2] == name[2]);
        assert(name.take(7)[3] == name[3]);
        assert(name.take(7)[4] == name[4]);
        assert(name.take(7)[5] == name[5]);
    }
    if name.len() >= 7 && name[0] == 'G' && name[1] == 'l' && name[2] == 'o' && name[3] == 'b'
        && name[4] == 'a' && name[5] == 'l' && (forall|i: int|
        0 <= i < name.len() ==> (#[trigger] name[i] as int == 92 <==> i == 6) && name[i] as int != 0) {
        assert(name[6] as int == 92);
        assert(name.take(7) =~= "Global\\"@);
        assert forall|i: int| 0 <= i < name.skip(7).len() implies #[trigger] name.skip(7)[i] != '\\'
            && name.skip(7)[i] != '\0' by {
            assert(name.skip(7)[i] == name[i + 7]);
        }
    }
}

/// The parts of users in object names, character by character.
pub proof fn user_parts_are_by_character(username: Seq<char>, i: int)
    requires
        0 <= i < username.len(),
    ensures
        ({
            let c = username[i];
            let capital = 65 <= c as int <= 90;
            let plain = 48 <= c as int <= 57 || 97 <= c as int <= 122;
            &&& case_folded(username).len() == username.len()
            &&& ascii_user_part(username).len() == username.len()
            &&& folded_part(username).len() == username.len()
            &&& capital ==> {
                &&& case_folded(username)[i] as int == c as int + 32
                &&& ascii_user_part(username)[i] as int == c as int + 32
                &&& folded_part(username)[i] as int == c as int + 32
            }
            &&& !capital ==> case_folded(username)[i] == c
            &&& plain ==> ascii_user_part(username)[i] == c && folded_part(username)[i] == c
            &&& !capital && !plain ==> ascii_user_part(username)[i] == '_'
            &&& !capital && !plain && (c as int) < 128 ==> folded_part(username)[i] == '_'
            &&& c as int >= 128 ==> folded_part(username)[i] == (if alphanumeric(c) {
                c
            } else {
                '_'
            })
        }),
{
}

} // verus!
