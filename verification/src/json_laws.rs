//! How documents are read and compared, and how numbers are written.
use vstd::prelude::*;
use crate::json::{
    counts, equal_documents, json_option, member, numbers_equal, to_text, Json, JsonView,
    MemberView,
};
use crate::error::{ApiError, ChannelError};
use crate::phoenix::{Outgoing, SocketEvent};
use crate::table::{Key, Table};
use crate::text::{
    chars_of, decimal, decimal_text, is_before, lowercase, option_view, precedes, same,
    same_ignore_case,
};

verus! {

/// Of the members of an object the last one of a name counts: it is what is
/// found, and where nothing is found there is none of that name. No other
/// document has members.
pub proof fn law_the_last_member_of_a_name_counts(
    document: &Json,
    key: &str,
    found: Option<&Json>,
    text: Option<String>,
)
    requires
        call_ensures(Json::get, (document, key), found),
        call_ensures(Json::get_text, (document, key), text),
    ensures
        !(document@ is Object) ==> found is None,
        document@ matches JsonView::Object(fields) ==> match found {
            Some(v) => exists|i: int|
                {
                    &&& 0 <= i < fields.len()
                    &&& (#[trigger] fields[i]).name == key@
                    &&& fields[i].value == v@
                    &&& forall|j: int|
                        i < j < fields.len() ==> (#[trigger] fields[j]).name != key@
                },
            None => forall|i: int| 0 <= i < fields.len() ==> (#[trigger] fields[i]).name != key@,
        },
        match found {
            Some(v) => match v@ {
                JsonView::Text(s) => option_view(text) == Some(s),
                _ => text is None,
            },
            None => text is None,
        },
{
    if let JsonView::Object(fields) = document@ {
        member_is_the_last(fields, key@);
    }
}

proof fn member_is_the_last(fields: Seq<MemberView>, key: Seq<char>)
    ensures
        match member(fields, key) {
            Some(v) => exists|i: int|
                {
                    &&& 0 <= i < fields.len()
                    &&& (#[trigger] fields[i]).name == key
                    &&& fields[i].value == v
                    &&& forall|j: int| i < j < fields.len() ==> (#[trigger] fields[j]).name != key
                },
            None => forall|i: int| 0 <= i < fields.len() ==> (#[trigger] fields[i]).name != key,
        },
    decreases fields.len(),
{
    if fields.len() > 0 {
        let front = fields.drop_last();
        let last = fields.len() - 1;
        assert(fields[last] == fields.last());
        if fields.last().name != key {
            member_is_the_last(front, key);
            match member(front, key) {
                Some(v) => {
                    let i = choose|i: int|
                        {
                            &&& 0 <= i < front.len()
                            &&& (#[trigger] front[i]).name == key
                            &&& front[i].value == v
                            &&& forall|j: int|
                                i < j < front.len() ==> (#[trigger] front[j]).name != key
                        };
                    assert(fields[i] == front[i]);
                    assert forall|j: int| i < j < fields.len() implies (
                    #[trigger] fields[j]).name != key by {
                        if j < last {
                            assert(fields[j] == front[j]);
                        }
                    }
                },
                None => {
                    assert forall|i: int| 0 <= i < fields.len() implies (
                    #[trigger] fields[i]).name != key by {
                        if i < last {
                            assert(fields[i] == front[i]);
                        }
                    }
                },
            }
        }
    }
}

/// Only a string has a text, and it is the string.
pub proof fn law_only_a_string_has_a_text(document: &Json, text: Option<&String>)
    requires
        call_ensures(Json::text, (document,), text),
    ensures
        match document {
            Json::Text(s) => text matches Some(t) && t@ == s@,
            _ => text is None,
        },
{
}

/// An object of one member has that member and no other, and the empty one has
/// none.
pub proof fn law_objects_are_made_of_their_members(
    key: &str,
    value: Json,
    one: Json,
    none: Json,
    other: Seq<char>,
)
    requires
        call_ensures(Json::single, (key, value), one),
        call_ensures(Json::object, (), none),
    ensures
        one@ is Object,
        one@.get(key@) == Some(value@),
        other != key@ ==> one@.get(other) is None,
        none@ is Object,
        none@.get(other) is None,
{
    let fields = one@->Object_0;
    assert(fields.last().name == key@);
    assert(fields.drop_last().len() == 0);
    reveal_with_fuel(member, 2);
}

/// Two objects are equal exactly where they have the same members with equal
/// values, in whatever order.
pub proof fn law_objects_are_equal_by_their_members(
    a: &Json,
    b: &Json,
    equal: bool,
)
    requires
        call_ensures(Json::equals, (a, b), equal),
        a@ is Object,
        b@ is Object,
    ensures
        equal == (forall|key: Seq<char>|
            match (#[trigger] a@.get(key), b@.get(key)) {
                (Some(v), Some(w)) => equal_documents(v, w),
                (None, None) => true,
                _ => false,
            }),
{
    let x = a@->Object_0;
    let y = b@->Object_0;
    if equal {
        assert forall|key: Seq<char>|
            match (#[trigger] a@.get(key), b@.get(key)) {
                (Some(v), Some(w)) => equal_documents(v, w),
                (None, None) => true,
                _ => false,
            } by {
            member_is_the_last(x, key);
            member_is_the_last(y, key);
            if let Some(v) = member(x, key) {
                let i = choose|i: int|
                    {
                        &&& 0 <= i < x.len()
                        &&& (#[trigger] x[i]).name == key
                        &&& x[i].value == v
                        &&& forall|j: int| i < j < x.len() ==> (#[trigger] x[j]).name != key
                    };
                assert(counts(x, i));
            } else if let Some(w) = member(y, key) {
                let j = choose|j: int|
                    {
                        &&& 0 <= j < y.len()
                        &&& (#[trigger] y[j]).name == key
                        &&& y[j].value == w
                        &&& forall|k: int| j < k < y.len() ==> (#[trigger] y[k]).name != key
                    };
                assert(member(x, y[j].name) is Some);
            }
        }
    }
    if forall|key: Seq<char>|
        match (#[trigger] a@.get(key), b@.get(key)) {
            (Some(v), Some(w)) => equal_documents(v, w),
            (None, None) => true,
            _ => false,
        } {
        assert forall|i: int| 0 <= i < x.len() && #[trigger] counts(x, i) implies match member(
            y,
            x[i].name,
        ) {
            Some(v) => equal_documents(x[i].value, v),
            None => false,
        } by {
            let key = x[i].name;
            member_is_the_last(x, key);
            assert(a@.get(key) == member(x, key));
            let v = member(x, key)->Some_0;
            let m = choose|m: int|
                {
                    &&& 0 <= m < x.len()
                    &&& (#[trigger] x[m]).name == key
                    &&& x[m].value == v
                    &&& forall|j: int| m < j < x.len() ==> (#[trigger] x[j]).name != key
                };
            assert(m == i) by {
                if m < i {
                    assert(x[i].name != key);
                }
                if i < m {
                    assert(x[m].name != x[i].name);
                }
            }
        }
        assert forall|j: int| 0 <= j < y.len() implies member(x, (#[trigger] y[j]).name) is Some by {
            let key = y[j].name;
            member_is_the_last(y, key);
            assert(a@.get(key) == member(x, key));
        }
    }
}

/// Two arrays are equal exactly where they are as long and equal item by item;
/// other documents exactly where they are of one kind and hold the same.
pub proof fn law_other_documents_are_equal_by_what_they_hold(
    a: &Json,
    b: &Json,
    equal: bool,
)
    requires
        call_ensures(Json::equals, (a, b), equal),
    ensures
        match (a@, b@) {
            (JsonView::Null, JsonView::Null) => equal,
            (JsonView::Bool(x), JsonView::Bool(y)) => equal == (x == y),
            (JsonView::Text(x), JsonView::Text(y)) => equal == (x == y),
            (JsonView::Number(x), JsonView::Number(y)) => equal == numbers_equal(x, y),
            (JsonView::Array(x), JsonView::Array(y)) => equal == (x.len() == y.len() && forall|
                i: int,
            |
                0 <= i < x.len() ==> equal_documents(#[trigger] x[i], y[i])),
            (JsonView::Object(_), JsonView::Object(_)) => true,
            _ => !equal,
        },
{
}

/// A copy is the same document.
pub proof fn law_a_copy_is_the_same_document(document: &Json, copy: Json)
    requires
        call_ensures(<Json as Clone>::clone, (document,), copy),
    ensures
        copy@ == document@,
{
}

/// What is sent is the text of the whole frame.
pub proof fn law_a_frame_is_sent_whole(outgoing: Outgoing, frame: Json, sent: String, text: String)
    requires
        call_ensures(Outgoing::text, (outgoing,), sent),
        frame@ == outgoing.frame@,
        call_ensures(to_text, (frame,), text),
    ensures
        sent@ == text@,
{
}

/// The number that a row of decimal digits stands for.
pub open spec fn number_of(digits: Seq<char>) -> int
    decreases digits.len(),
{
    if digits.len() == 0 {
        0
    } else {
        10 * number_of(digits.drop_last()) + (digits.last() as int - '0' as int)
    }
}

/// A number is written with the digits that stand for it, and with no zero before
/// them.
pub proof fn law_a_number_is_written_in_decimal(n: u64, text: String, i: int)
    requires
        call_ensures(decimal_text, (n,), text),
    ensures
        number_of(text@) == n,
        0 <= i < text@.len() ==> '0' <= text@[i] <= '9',
        text@.len() > 0,
        text@.len() > 1 ==> text@[0] != '0',
{
    decimal_stands_for(n as nat);
    if 0 <= i < text@.len() {
        assert('0' <= decimal(n as nat)[i] <= '9');
    }
}

proof fn decimal_stands_for(n: nat)
    ensures
        number_of(decimal(n)) == n,
        forall|i: int| 0 <= i < decimal(n).len() ==> '0' <= #[trigger] decimal(n)[i] <= '9',
        decimal(n).len() > 0,
        n > 0 ==> decimal(n)[0] != '0',
    decreases n,
{
    let s = decimal(n);
    if n < 10 {
        assert(s.drop_last().len() == 0);
        assert(number_of(s.drop_last()) == 0);
    } else {
        decimal_stands_for(n / 10);
        let front = decimal(n / 10);
        assert(s.drop_last() =~= front);
        assert(s[0] == front[0]);
        assert forall|i: int| 0 <= i < s.len() implies '0' <= #[trigger] s[i] <= '9' by {
            if i < front.len() {
                assert(s[i] == front[i]);
            }
        }
    }
}

/// Two texts are the same where their characters are, and the same but for the
/// case of ASCII letters where their characters are but for that.
pub proof fn law_texts_are_compared_by_their_characters(
    a: &str,
    b: &str,
    equal: bool,
    alike: bool,
    copy: Vec<char>,
)
    requires
        call_ensures(same, (a, b), equal),
        call_ensures(same_ignore_case, (a, b), alike),
        call_ensures(chars_of, (a,), copy),
    ensures
        equal == (a@.len() == b@.len() && forall|i: int|
            0 <= i < a@.len() ==> #[trigger] a@[i] == b@[i]),
        equal ==> alike,
        alike ==> a@.len() == b@.len(),
        copy@ == a@,
{
    if a@.len() == b@.len() && forall|i: int| 0 <= i < a@.len() ==> #[trigger] a@[i] == b@[i] {
        assert(a@ =~= b@);
    }
    if alike {
        assert(lowercase(a@).len() == a@.len());
        assert(lowercase(b@).len() == b@.len());
    }
}

/// Two texts are ordered by their first different characters, and a text comes
/// before every longer one that begins with it.
pub proof fn law_texts_are_ordered_by_their_first_difference(
    a: &str,
    b: &str,
    before: bool,
    i: int,
)
    requires
        call_ensures(is_before, (a, b), before),
        0 <= i <= a@.len(),
        i <= b@.len(),
        forall|j: int| 0 <= j < i ==> #[trigger] a@[j] == b@[j],
    ensures
        i < a@.len() && i < b@.len() && a@[i] != b@[i] ==> before == (a@[i] < b@[i]),
        i == a@.len() && i < b@.len() ==> before,
        i == b@.len() ==> !before,
{
    same_start(a@, b@, i);
}

proof fn same_start(a: Seq<char>, b: Seq<char>, i: int)
    requires
        0 <= i <= a.len(),
        i <= b.len(),
        forall|j: int| 0 <= j < i ==> #[trigger] a[j] == b[j],
    ensures
        precedes(a, b) == precedes(a.skip(i), b.skip(i)),
    decreases i,
{
    if i == 0 {
        assert(a.skip(0) =~= a);
        assert(b.skip(0) =~= b);
    } else {
        let x = a.drop_first();
        let y = b.drop_first();
        assert(a[0] == b[0]);
        assert forall|j: int| 0 <= j < i - 1 implies #[trigger] x[j] == y[j] by {
            assert(a[j + 1] == b[j + 1]);
        }
        same_start(x, y, i - 1);
        assert(x.skip(i - 1) =~= a.skip(i));
        assert(y.skip(i - 1) =~= b.skip(i));
    }
}

/// A copy of an error or an event is the same.
pub proof fn law_copies_of_errors_and_events_are_the_same(
    api: &ApiError,
    api_copy: ApiError,
    channel: &ChannelError,
    channel_copy: ChannelError,
    event: &SocketEvent,
    event_copy: SocketEvent,
)
    requires
        call_ensures(<ApiError as Clone>::clone, (api,), api_copy),
        call_ensures(<ChannelError as Clone>::clone, (channel,), channel_copy),
        call_ensures(<SocketEvent as Clone>::clone, (event,), event_copy),
    ensures
        api_copy.status == api.status,
        option_view(api_copy.code) == option_view(api.code),
        api_copy.message@ == api.message@,
        api_copy.body@ == api.body@,
        channel_copy.operation@ == channel.operation@,
        channel_copy.topic@ == channel.topic@,
        channel_copy.reason@ == channel.reason@,
        json_option(channel_copy.payload) == json_option(channel.payload),
        event_copy@ == event@,
{
}

/// A table holds what was put in last for a key, until it is taken out; what it
/// holds for other keys stays.
pub proof fn law_a_table_holds_what_was_put_in<K: Key, V>(
    table: &mut Table<K, V>,
    key: K,
    value: V,
    full: &Table<K, V>,
    asked: &K,
    held: Option<&V>,
    holds: bool,
    emptied: &mut Table<K, V>,
    taken: Option<V>,
)
    requires
        call_ensures(Table::<K, V>::insert, (table, key, value), ()),
        full@ == final(table)@,
        call_ensures(Table::<K, V>::get, (full, asked), held),
        call_ensures(Table::<K, V>::contains, (full, asked), holds),
        old(emptied)@ == full@,
        call_ensures(Table::<K, V>::remove, (emptied, asked), taken),
    ensures
        asked@ == key@ ==> held == Some(&value) && taken == Some(value),
        asked@ != key@ ==> (held is Some) == old(table)@.contains_key(asked@),
        asked@ != key@ && held is Some ==> *held->Some_0 == old(table)@[asked@],
        holds == (held is Some),
        (taken is Some) == (held is Some),
        taken is Some ==> taken->Some_0 == *held->Some_0,
        !final(emptied)@.contains_key(asked@),
        asked@ != key@ ==> final(emptied)@.contains_key(key@) && final(emptied)@[key@] == value,
{
}

} // verus!
