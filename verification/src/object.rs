//! Objects as maps in key order.

use crate::json::{members_view, Json, Value};
use crate::text::{bytes_before, compare_keys, key_before, lemma_no_two_ways, KeyOrder};
use vstd::prelude::*;
use vstd::utf8::encode_utf8;

verus! {

/// The names of `members` ascend strictly: no name occurs twice, and the
/// members stand in the order of their names.
pub open spec fn keys_ascending(members: Seq<(Seq<char>, Json)>) -> bool {
    forall|i: int, j: int|
        0 <= i < j < members.len() ==> key_before(#[trigger] members[i].0, #[trigger] members[j].0)
}

/// `entry` is a member of `members` after which its name does not occur
/// again: of the members with that name it is the one that was written last.
pub open spec fn is_last_entry(members: Seq<(Seq<char>, Json)>, entry: (Seq<char>, Json)) -> bool {
    exists|i: int|
        0 <= i < members.len() && #[trigger] members[i] == entry && forall|j: int|
            i < j < members.len() ==> (#[trigger] members[j]).0 != entry.0
}

/// `out` is what `members` amount to as a map in key order: it holds, for
/// each name, the member that was written last, and its names ascend.
pub open spec fn is_keyed(members: Seq<(Seq<char>, Json)>, out: Seq<(Seq<char>, Json)>) -> bool {
    &&& keys_ascending(out)
    &&& forall|entry: (Seq<char>, Json)| #[trigger] out.contains(entry) <==> is_last_entry(members, entry)
}

/// The order of byte strings is transitive.
pub proof fn lemma_bytes_before_transitive(a: Seq<u8>, b: Seq<u8>, c: Seq<u8>)
    requires
        bytes_before(a, b),
        bytes_before(b, c),
    ensures
        bytes_before(a, c),
{
    let k1 = choose|k: int|
        0 <= k <= a.len() && k < b.len() && #[trigger] a.subrange(0, k) == b.subrange(0, k) && (k
            < a.len() ==> a[k] < b[k]);
    let k2 = choose|k: int|
        0 <= k <= b.len() && k < c.len() && #[trigger] b.subrange(0, k) == c.subrange(0, k) && (k
            < b.len() ==> b[k] < c[k]);
    let k = if k1 <= k2 {
        k1
    } else {
        k2
    };
    assert(a.subrange(0, k) =~= c.subrange(0, k)) by {
        assert forall|i: int| 0 <= i < k implies a[i] == c[i] by {
            assert(a.subrange(0, k1)[i] == b.subrange(0, k1)[i]);
            assert(b.subrange(0, k2)[i] == c.subrange(0, k2)[i]);
        }
    }
    if k1 < k2 {
        assert(b.subrange(0, k2)[k1] == c.subrange(0, k2)[k1]);
    } else if k2 < k1 {
        assert(a.subrange(0, k1)[k2] == b.subrange(0, k1)[k2]);
    }
}

/// Puts `value` under `key` into members whose names ascend: in place of
/// the member of that name if there is one, else where the order wants it.
fn put(out: &mut Vec<(String, Value)>, key: String, value: Value)
    requires
        keys_ascending(members_view(old(out)@)),
    ensures
        keys_ascending(members_view(final(out)@)),
        forall|entry: (Seq<char>, Json)| #[trigger]
            members_view(final(out)@).contains(entry) <==> (entry == (key@, value@) || (
            members_view(old(out)@).contains(entry) && entry.0 != key@)),
{
    let ghost before = members_view(out@);
    let ghost added = (key@, value@);
    let mut at: usize = 0;
    let mut found = false;
    while at < out.len()
        invariant_except_break
            !found,
        invariant
            at <= out.len(),
            members_view(out@) == before,
            forall|i: int| 0 <= i < at ==> key_before(#[trigger] before[i].0, key@),
        ensures
            at <= out.len(),
            found ==> at < out.len() && before[at as int].0 == key@,
            !found && at < out.len() ==> key_before(key@, before[at as int].0),
        decreases out.len() - at,
    {
        let how = compare_keys(out[at].0.as_str(), key.as_str());
        if how == KeyOrder::Same {
            found = true;
            break ;
        }
        if how == KeyOrder::After {
            break ;
        }
        at += 1;
    }
    proof {
        assert forall|i: int| 0 <= i < before.len() && i != at || (i == at && !found && i
            < before.len()) implies (#[trigger] before[i]).0 != key@ by {
            lemma_no_two_ways(encode_utf8(before[i].0), encode_utf8(key@));
            if i > at {
                if found {
                } else {
                    lemma_bytes_before_transitive(
                        encode_utf8(key@),
                        encode_utf8(before[at as int].0),
                        encode_utf8(before[i].0),
                    );
                    lemma_no_two_ways(encode_utf8(key@), encode_utf8(before[i].0));
                }
            }
        }
    }
    if found {
        out.set(at, (key, value));
        proof {
            let after = members_view(out@);
            assert(after =~= before.update(at as int, added));
            assert(keys_ascending(after)) by {
                assert forall|i: int, j: int| 0 <= i < j < after.len() implies key_before(
                    #[trigger] after[i].0,
                    #[trigger] after[j].0,
                ) by {
                    assert(key_before(before[i].0, before[j].0));
                }
            }
            assert forall|entry: (Seq<char>, Json)| #[trigger]
                after.contains(entry) <==> (entry == added || (before.contains(entry) && entry.0
                    != key@)) by {
                if after.contains(entry) {
                    let i = choose|i: int| 0 <= i < after.len() && after[i] == entry;
                    if i != at {
                        assert(before[i] == entry);
                    }
                }
                if entry == added {
                    assert(after[at as int] == entry);
                }
                if before.contains(entry) && entry.0 != key@ {
                    let i = choose|i: int| 0 <= i < before.len() && before[i] == entry;
                    assert(after[i] == entry);
                }
            }
        }
    } else {
        out.insert(at, (key, value));
        proof {
            let after = members_view(out@);
            assert(after =~= before.insert(at as int, added));
            assert(keys_ascending(after)) by {
                assert forall|i: int, j: int| 0 <= i < j < after.len() implies key_before(
                    #[trigger] after[i].0,
                    #[trigger] after[j].0,
                ) by {
                    if j < at {
                        assert(key_before(before[i].0, before[j].0));
                    } else if j == at {
                        assert(key_before(before[i].0, key@));
                    } else if i < at {
                        assert(key_before(before[i].0, before[j - 1].0));
                    } else if i == at {
                        if j - 1 > at {
                            assert(key_before(before[at as int].0, before[j - 1].0));
                            lemma_bytes_before_transitive(
                                encode_utf8(key@),
                                encode_utf8(before[at as int].0),
                                encode_utf8(before[j - 1].0),
                            );
                        }
                    } else {
                        assert(key_before(before[i - 1].0, before[j - 1].0));
                    }
                }
            }
            assert forall|entry: (Seq<char>, Json)| #[trigger]
                after.contains(entry) <==> (entry == added || (before.contains(entry) && entry.0
                    != key@)) by {
                if after.contains(entry) {
                    let i = choose|i: int| 0 <= i < after.len() && after[i] == entry;
                    if i < at {
                        assert(before[i] == entry);
                    } else if i > at {
                        assert(before[i - 1] == entry);
                    }
                }
                if entry == added {
                    assert(after[at as int] == entry);
                }
                if before.contains(entry) && entry.0 != key@ {
                    let i = choose|i: int| 0 <= i < before.len() && before[i] == entry;
                    if i < at {
                        assert(after[i] == entry);
                    } else {
                        assert(after[i + 1] == entry);
                    }
                }
            }
        }
    }
}

/// Among members in key order no name occurs twice.
pub proof fn lemma_ascending_distinct(members: Seq<(Seq<char>, Json)>, i: int, j: int)
    requires
        keys_ascending(members),
        0 <= i < members.len(),
        0 <= j < members.len(),
        i != j,
    ensures
        members[i].0 != members[j].0,
{
    lemma_no_two_ways(encode_utf8(members[i].0), encode_utf8(members[j].0));
    if i < j {
        assert(key_before(members[i].0, members[j].0));
    } else {
        assert(key_before(members[j].0, members[i].0));
    }
}

/// Members in key order are known by what they hold: two that hold the
/// same members are the same sequence.
pub proof fn lemma_ascending_unique(a: Seq<(Seq<char>, Json)>, b: Seq<(Seq<char>, Json)>)
    requires
        keys_ascending(a),
        keys_ascending(b),
        forall|entry: (Seq<char>, Json)| a.contains(entry) <==> b.contains(entry),
    ensures
        a == b,
    decreases a.len(),
{
    if a.len() == 0 {
        if b.len() > 0 {
            assert(b.contains(b[0]));
        }
        assert(a =~= b);
    } else {
        let x = a.last();
        assert(a.contains(x));
        let j = choose|j: int| 0 <= j < b.len() && b[j] == x;
        let y = b.last();
        assert(b.contains(y));
        let i = choose|i: int| 0 <= i < a.len() && a[i] == y;
        if x != y {
            assert(key_before(b[j].0, b[b.len() - 1].0));
            assert(key_before(a[i].0, a[a.len() - 1].0));
            lemma_no_two_ways(encode_utf8(x.0), encode_utf8(y.0));
        }
        let shorter_a = a.drop_last();
        let shorter_b = b.drop_last();
        assert forall|entry: (Seq<char>, Json)|
            shorter_a.contains(entry) <==> shorter_b.contains(entry) by {
            if shorter_a.contains(entry) {
                let k = choose|k: int| 0 <= k < shorter_a.len() && shorter_a[k] == entry;
                assert(a[k] == entry);
                assert(key_before(a[k].0, a[a.len() - 1].0));
                lemma_no_two_ways(encode_utf8(entry.0), encode_utf8(x.0));
                assert(b.contains(entry));
                let m = choose|m: int| 0 <= m < b.len() && b[m] == entry;
                assert(shorter_b[m] == entry);
            }
            if shorter_b.contains(entry) {
                let k = choose|k: int| 0 <= k < shorter_b.len() && shorter_b[k] == entry;
                assert(b[k] == entry);
                assert(key_before(b[k].0, b[b.len() - 1].0));
                lemma_no_two_ways(encode_utf8(entry.0), encode_utf8(y.0));
                assert(a.contains(entry));
                let m = choose|m: int| 0 <= m < a.len() && a[m] == entry;
                assert(shorter_a[m] == entry);
            }
        }
        assert(keys_ascending(shorter_a)) by {
            assert forall|p: int, q: int| 0 <= p < q < shorter_a.len() implies key_before(
                #[trigger] shorter_a[p].0,
                #[trigger] shorter_a[q].0,
            ) by {
                assert(key_before(a[p].0, a[q].0));
            }
        }
        assert(keys_ascending(shorter_b)) by {
            assert forall|p: int, q: int| 0 <= p < q < shorter_b.len() implies key_before(
                #[trigger] shorter_b[p].0,
                #[trigger] shorter_b[q].0,
            ) by {
                assert(key_before(b[p].0, b[q].0));
            }
        }
        lemma_ascending_unique(shorter_a, shorter_b);
        assert(a =~= shorter_a.push(x));
        assert(b =~= shorter_b.push(y));
    }
}

/// Members that stand in key order already are collected as they are.
pub proof fn lemma_keyed_of_ascending(members: Seq<(Seq<char>, Json)>)
    requires
        keys_ascending(members),
    ensures
        is_keyed(members, members),
{
    assert forall|entry: (Seq<char>, Json)| #[trigger]
        members.contains(entry) <==> is_last_entry(members, entry) by {
        if members.contains(entry) {
            let i = choose|i: int| 0 <= i < members.len() && members[i] == entry;
            assert forall|j: int| i < j < members.len() implies (#[trigger] members[j]).0
                != entry.0 by {
                lemma_ascending_distinct(members, i, j);
            }
        }
    }
}

/// Collecting the same members twice gives the same object: what
/// [`is_keyed`] asks of the outcome leaves no choice.
pub proof fn lemma_keyed_unique(
    members: Seq<(Seq<char>, Json)>,
    a: Seq<(Seq<char>, Json)>,
    b: Seq<(Seq<char>, Json)>,
)
    requires
        is_keyed(members, a),
        is_keyed(members, b),
    ensures
        a == b,
{
    assert forall|entry: (Seq<char>, Json)| a.contains(entry) <==> b.contains(entry) by {
        assert(a.contains(entry) <==> is_last_entry(members, entry));
        assert(b.contains(entry) <==> is_last_entry(members, entry));
    }
    lemma_ascending_unique(a, b);
}

/// Every name of `members` is a name of the object that they are collected
/// into, and no other is.
pub proof fn lemma_keyed_names(
    members: Seq<(Seq<char>, Json)>,
    out: Seq<(Seq<char>, Json)>,
    key: Seq<char>,
)
    requires
        is_keyed(members, out),
    ensures
        (exists|i: int| 0 <= i < members.len() && (#[trigger] members[i]).0 == key) <==> (exists|
            k: int,
        | 0 <= k < out.len() && (#[trigger] out[k]).0 == key),
{
    if exists|i: int| 0 <= i < members.len() && (#[trigger] members[i]).0 == key {
        let i = choose|i: int| 0 <= i < members.len() && (#[trigger] members[i]).0 == key;
        let last = lemma_last_with_key(members, i);
        assert(is_last_entry(members, members[last]));
        assert(out.contains(members[last]));
        let k = choose|k: int| 0 <= k < out.len() && out[k] == members[last];
        assert(out[k].0 == key);
    }
    if exists|k: int| 0 <= k < out.len() && (#[trigger] out[k]).0 == key {
        let k = choose|k: int| 0 <= k < out.len() && (#[trigger] out[k]).0 == key;
        assert(out.contains(out[k]));
        assert(is_last_entry(members, out[k]));
    }
}

/// Behind every member stands the last member of its name.
proof fn lemma_last_with_key(members: Seq<(Seq<char>, Json)>, i: int) -> (last: int)
    requires
        0 <= i < members.len(),
    ensures
        i <= last < members.len(),
        members[last].0 == members[i].0,
        forall|j: int| last < j < members.len() ==> (#[trigger] members[j]).0 != members[i].0,
    decreases members.len() - i,
{
    if exists|j: int| i < j < members.len() && (#[trigger] members[j]).0 == members[i].0 {
        let j = choose|j: int| i < j < members.len() && (#[trigger] members[j]).0 == members[i].0;
        lemma_last_with_key(members, j)
    } else {
        i
    }
}

/// What writing one more member does to the members that were written
/// last.
pub proof fn lemma_last_entry_push(
    members: Seq<(Seq<char>, Json)>,
    added: (Seq<char>, Json),
    entry: (Seq<char>, Json),
)
    ensures
        is_last_entry(members.push(added), entry) <==> (entry == added || (is_last_entry(
            members,
            entry,
        ) && entry.0 != added.0)),
{
    let more = members.push(added);
    if is_last_entry(more, entry) {
        let i = choose|i: int|
            0 <= i < more.len() && #[trigger] more[i] == entry && forall|j: int|
                i < j < more.len() ==> (#[trigger] more[j]).0 != entry.0;
        if i < members.len() {
            assert(more[members.len() as int].0 != entry.0);
            assert(members[i] == entry);
            assert forall|j: int| i < j < members.len() implies (#[trigger] members[j]).0
                != entry.0 by {
                assert(more[j].0 != entry.0);
            }
        }
    }
    if entry == added {
        assert(more[members.len() as int] == entry);
    }
    if is_last_entry(members, entry) && entry.0 != added.0 {
        let i = choose|i: int|
            0 <= i < members.len() && #[trigger] members[i] == entry && forall|j: int|
                i < j < members.len() ==> (#[trigger] members[j]).0 != entry.0;
        assert(more[i] == entry);
        assert forall|j: int| i < j < more.len() implies (#[trigger] more[j]).0 != entry.0 by {
            if j < members.len() {
                assert(members[j].0 != entry.0);
            }
        }
    }
}

/// Collects `members` into key order, as a map would: of several members
/// with one name the last stays.
pub fn sorted_members(members: Vec<(String, Value)>) -> (out: Vec<(String, Value)>)
    ensures
        is_keyed(members_view(members@), members_view(out@)),
{
    let ghost given = members_view(members@);
    let mut out: Vec<(String, Value)> = Vec::new();
    assert(members_view(out@) =~= Seq::empty());
    for member in it: members
        invariant
            it.seq() == members@,
            given == members_view(members@),
            is_keyed(given.take(it.index() as int), members_view(out@)),
    {
        let ghost before = members_view(out@);
        let ghost done = given.take(it.index() as int);
        let (key, value) = member;
        put(&mut out, key, value);
        proof {
            let after = members_view(out@);
            let added = (key@, value@);
            assert(given.take(it.index() + 1) =~= done.push(added));
            assert forall|entry: (Seq<char>, Json)| #[trigger]
                after.contains(entry) <==> is_last_entry(done.push(added), entry) by {
                lemma_last_entry_push(done, added, entry);
                assert(before.contains(entry) <==> is_last_entry(done, entry));
            }
        }
    }
    assert(given.take(members@.len() as int) =~= given);
    out
}

} // verus!
