//! Default request headers, kept in the order of their names.
use vstd::prelude::*;
use crate::text::{
    is_before, lowercase, precedes, precedes_irreflexive, precedes_total, precedes_transitive, same,
    same_ignore_case,
};

verus! {

/// Each name comes strictly before the next.
pub open spec fn ordered(headers: Seq<(Seq<char>, Seq<char>)>) -> bool {
    forall|i: int, j: int|
        0 <= i < j < headers.len() ==> precedes(
            (#[trigger] headers[i]).0,
            (#[trigger] headers[j]).0,
        )
}

/// The value of the first header whose name is that one, the case of ASCII
/// letters aside.
pub open spec fn first_named(
    headers: Seq<(Seq<char>, Seq<char>)>,
    name: Seq<char>,
) -> Option<Seq<char>>
    decreases headers.len(),
{
    if headers.len() == 0 {
        None
    } else if lowercase(headers[0].0) == lowercase(name) {
        Some(headers[0].1)
    } else {
        first_named(headers.drop_first(), name)
    }
}

/// The headers with one set: it stands where its name belongs, in place of any
/// earlier one of that name.
pub open spec fn with_header(
    headers: Seq<(Seq<char>, Seq<char>)>,
    name: Seq<char>,
    value: Seq<char>,
) -> Seq<(Seq<char>, Seq<char>)>
    decreases headers.len(),
{
    if headers.len() == 0 {
        seq![(name, value)]
    } else if precedes(headers[0].0, name) {
        seq![headers[0]] + with_header(headers.drop_first(), name, value)
    } else if headers[0].0 == name {
        seq![(name, value)] + headers.drop_first()
    } else {
        seq![(name, value)] + headers
    }
}

/// Setting a header keeps the names in order, gives that name that value, and
/// leaves every other header as it was.
pub proof fn law_one_header_is_set(
    headers: Seq<(Seq<char>, Seq<char>)>,
    name: Seq<char>,
    value: Seq<char>,
)
    requires
        ordered(headers),
    ensures
        ordered(with_header(headers, name, value)),
        forall|n: Seq<char>, v: Seq<char>| #[trigger]
            with_header(headers, name, value).contains((n, v)) <==> if n == name {
                v == value
            } else {
                headers.contains((n, v))
            },
    decreases headers.len(),
{
    let out = with_header(headers, name, value);
    if headers.len() == 0 {
        assert(out[0] == (name, value));
    } else {
        let first = headers[0];
        let rest = headers.drop_first();
        assert forall|j: int| 0 <= j < rest.len() implies precedes(
            first.0,
            (#[trigger] rest[j]).0,
        ) by {
            assert(rest[j] == headers[j + 1]);
        }
        assert(ordered(rest)) by {
            assert forall|i: int, j: int| 0 <= i < j < rest.len() implies precedes(
                (#[trigger] rest[i]).0,
                (#[trigger] rest[j]).0,
            ) by {
                assert(rest[i] == headers[i + 1] && rest[j] == headers[j + 1]);
            }
        }
        assert forall|p: (Seq<char>, Seq<char>)|
            headers.contains(p) == (p == first || rest.contains(p)) by {
            if headers.contains(p) && p != first {
                let c = choose|c: int| 0 <= c < headers.len() && headers[c] == p;
                assert(rest[c - 1] == p);
            }
            if rest.contains(p) {
                let c = choose|c: int| 0 <= c < rest.len() && rest[c] == p;
                assert(headers[c + 1] == p);
            }
        }
        precedes_irreflexive(name);
        precedes_irreflexive(first.0);
        let tail = if precedes(first.0, name) {
            with_header(rest, name, value)
        } else if first.0 == name {
            rest
        } else {
            headers
        };
        let head = if precedes(first.0, name) {
            first
        } else {
            (name, value)
        };
        assert(out =~= seq![head] + tail);
        if precedes(first.0, name) {
            law_one_header_is_set(rest, name, value);
        } else if first.0 != name {
            precedes_total(first.0, name);
        }
        assert forall|j: int| 0 <= j < tail.len() implies precedes(
            head.0,
            (#[trigger] tail[j]).0,
        ) by {
            let (n, v) = tail[j];
            assert(tail.contains((n, v)));
            if precedes(first.0, name) {
                if n != name {
                    assert(rest.contains((n, v)));
                    let c = choose|c: int| 0 <= c < rest.len() && rest[c] == (n, v);
                    assert(rest[c].0 == n);
                }
            } else if first.0 != name {
                if j > 0 {
                    assert(precedes(first.0, headers[j].0));
                    precedes_transitive(name, first.0, headers[j].0);
                }
            }
        }
        assert forall|i: int, j: int| 0 <= i < j < out.len() implies precedes(
            (#[trigger] out[i]).0,
            (#[trigger] out[j]).0,
        ) by {
            assert(out[j] == tail[j - 1]);
            if i > 0 {
                assert(out[i] == tail[i - 1]);
            }
        }
        assert forall|n: Seq<char>, v: Seq<char>| #[trigger]
            out.contains((n, v)) == if n == name {
                v == value
            } else {
                headers.contains((n, v))
            } by {
            assert(out[0] == head);
            if out.contains((n, v)) {
                let c = choose|c: int| 0 <= c < out.len() && out[c] == (n, v);
                if c > 0 {
                    assert(tail[c - 1] == (n, v));
                    assert(tail.contains((n, v)));
                    assert(precedes(head.0, tail[c - 1].0));
                }
            }
            if tail.contains((n, v)) {
                let c = choose|c: int| 0 <= c < tail.len() && tail[c] == (n, v);
                assert(out[c + 1] == (n, v));
            }
        }
    }
}

/// A header that was set is found again, unless another name differs from its
/// own in nothing but case.
pub proof fn law_a_set_header_is_found(
    headers: Seq<(Seq<char>, Seq<char>)>,
    name: Seq<char>,
    value: Seq<char>,
)
    requires
        forall|i: int|
            0 <= i < headers.len() && lowercase((#[trigger] headers[i]).0) == lowercase(name)
                ==> headers[i].0 == name,
    ensures
        first_named(with_header(headers, name, value), name) == Some(value),
    decreases headers.len(),
{
    if headers.len() > 0 && precedes(headers[0].0, name) {
        let rest = headers.drop_first();
        let out = with_header(headers, name, value);
        precedes_irreflexive(name);
        assert forall|i: int|
            0 <= i < rest.len() && lowercase((#[trigger] rest[i]).0) == lowercase(
                name,
            ) implies rest[i].0 == name by {
            assert(rest[i] == headers[i + 1]);
        }
        law_a_set_header_is_found(rest, name, value);
        assert(out.drop_first() =~= with_header(rest, name, value));
    }
}

/// What stands before the place of a name stays where it is.
proof fn with_header_after(
    headers: Seq<(Seq<char>, Seq<char>)>,
    at: int,
    name: Seq<char>,
    value: Seq<char>,
)
    requires
        0 <= at <= headers.len(),
        forall|j: int| 0 <= j < at ==> precedes((#[trigger] headers[j]).0, name),
    ensures
        with_header(headers, name, value) == headers.take(at) + with_header(
            headers.skip(at),
            name,
            value,
        ),
    decreases at,
{
    if at == 0 {
        assert(headers.skip(0) =~= headers);
    } else {
        let rest = headers.drop_first();
        assert forall|j: int| 0 <= j < at - 1 implies precedes((#[trigger] rest[j]).0, name) by {
            assert(rest[j] == headers[j + 1]);
        }
        with_header_after(rest, at - 1, name, value);
        assert(rest.skip(at - 1) =~= headers.skip(at));
        assert(seq![headers[0]] + rest.take(at - 1) =~= headers.take(at));
        assert(precedes(headers[0].0, name));
        assert(with_header(headers, name, value) =~= headers.take(at) + with_header(
            headers.skip(at),
            name,
            value,
        ));
    }
}

/// The views of name and value pairs.
pub open spec fn pair_views(pairs: Seq<(String, String)>) -> Seq<(Seq<char>, Seq<char>)> {
    pairs.map_values(|p: (String, String)| (p.0@, p.1@))
}

/// Headers with pairwise different names, in the order of their names.
#[derive(Debug)]
pub struct Headers {
    entries: Vec<(String, String)>,
}

impl View for Headers {
    type V = Seq<(Seq<char>, Seq<char>)>;

    closed spec fn view(&self) -> Seq<(Seq<char>, Seq<char>)> {
        pair_views(self.entries@)
    }
}

impl Headers {
    /// The names are in order.
    pub open spec fn wf(self) -> bool {
        ordered(self@)
    }

    /// No headers.
    pub fn new() -> (r: Headers)
        ensures
            r.wf(),
            r@ == Seq::<(Seq<char>, Seq<char>)>::empty(),
    {
        let r = Headers { entries: Vec::new() };
        assert(r@ =~= Seq::empty());
        r
    }

    /// The number of headers.
    pub fn len(&self) -> (r: usize)
        ensures
            r == self@.len(),
    {
        self.entries.len()
    }

    /// The name and value at a position.
    pub fn at(&self, i: usize) -> (r: (&String, &String))
        requires
            i < self@.len(),
        ensures
            (r.0@, r.1@) == self@[i as int],
    {
        (&self.entries[i].0, &self.entries[i].1)
    }

    /// A copy of the names and values, in order.
    pub fn pairs(&self) -> (r: Vec<(String, String)>)
        ensures
            pair_views(r@) == self@,
    {
        let mut r: Vec<(String, String)> = Vec::new();
        let mut i: usize = 0;
        while i < self.entries.len()
            invariant
                i <= self.entries.len(),
                r@.len() == i,
                forall|j: int|
                    0 <= j < i ==> (#[trigger] r@[j]).0@ == self.entries@[j].0@ && r@[j].1@
                        == self.entries@[j].1@,
            decreases self.entries.len() - i,
        {
            r.push((self.entries[i].0.clone(), self.entries[i].1.clone()));
            i += 1;
        }
        assert(pair_views(r@) =~= self@);
        r
    }

    /// Sets the header of that name, in place of any earlier one.
    pub fn insert(&mut self, name: String, value: String)
        requires
            old(self).wf(),
        ensures
            final(self).wf(),
            final(self)@ == with_header(old(self)@, name@, value@),
    {
        let ghost before = self@;
        let mut i: usize = 0;
        while i < self.entries.len() && is_before(self.entries[i].0.as_str(), name.as_str())
            invariant
                i <= self.entries.len(),
                self@ == before,
                forall|j: int| 0 <= j < i ==> precedes((#[trigger] before[j]).0, name@),
            decreases self.entries.len() - i,
        {
            proof {
                assert(before[i as int].0 == self.entries@[i as int].0@);
            }
            i += 1;
        }
        let ghost at = i as int;
        let ghost rest = before.skip(at);
        proof {
            law_one_header_is_set(before, name@, value@);
            with_header_after(before, at, name@, value@);
            if at < before.len() {
                assert(rest[0] == before[at]);
                assert(before[at].0 == self.entries@[at].0@);
            }
        }
        if i < self.entries.len() && same(self.entries[i].0.as_str(), name.as_str()) {
            self.entries[i].1 = value;
            assert(self@ =~= before.take(at) + (seq![(name@, value@)] + rest.drop_first()));
        } else {
            self.entries.insert(i, (name, value));
            assert(rest =~= Seq::empty() || rest.len() > 0);
            assert(self@ =~= before.take(at) + (seq![(name@, value@)] + rest));
        }
    }

    /// The value of the first header of that name, the case of ASCII letters
    /// aside.
    pub fn find_ignore_case(&self, name: &str) -> (r: Option<String>)
        ensures
            crate::text::option_view(r) == first_named(self@, name@),
    {
        let mut i: usize = 0;
        proof {
            assert(self@.skip(0) =~= self@);
        }
        while i < self.entries.len()
            invariant
                i <= self.entries.len(),
                first_named(self@, name@) == first_named(self@.skip(i as int), name@),
            decreases self.entries.len() - i,
        {
            proof {
                assert(self@.skip(i as int)[0] == self@[i as int]);
                assert(self@[i as int] == (
                    self.entries@[i as int].0@,
                    self.entries@[i as int].1@,
                ));
                assert(self@.skip(i as int).drop_first() =~= self@.skip(i + 1));
            }
            if same_ignore_case(self.entries[i].0.as_str(), name) {
                return Some(self.entries[i].1.clone());
            }
            i += 1;
        }
        None
    }
}

} // verus!
