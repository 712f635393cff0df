//! A free monoid on annotated string slices.
//!
//! [`FreeMonoid`] keeps one shared text store together with an ordered list of
//! tagged ranges slicing that store.  It is created empty, grows only by
//! [`push`](FreeMonoid::push) or [`append`](FreeMonoid::append), and is read
//! back entry by entry.  Concatenation is associative with the empty buffer as
//! two-sided identity, which lets independently built buffers be composed.

use vstd::prelude::*;
use vstd::string::StrSliceExecFns;
use vstd::string::StringExecFns;

verus! {

/// A free monoid on a set of annotated string slices.
///
/// One contiguous text store, and an ordered sequence of `(start, end, tag)`
/// entries whose ranges tile the store in order.  Ranges are expressed in
/// characters of the store.
#[derive(Debug, Clone)]
pub struct FreeMonoid<T> {
    payload: String,
    labels: Vec<(usize, usize, T)>,
}

impl<T> View for FreeMonoid<T> {
    type V = Seq<(T, Seq<char>)>;

    /// The abstract content: the tags in order, each with the text it annotates.
    closed spec fn view(&self) -> Seq<(T, Seq<char>)> {
        self.labels@.map(
            |i: int, l: (usize, usize, T)|
                (l.2, self.payload@.subrange(l.0 as int, l.1 as int)),
        )
    }
}

/// The texts of a sequence of entries, in order.
pub open spec fn entry_texts<T>(s: Seq<(T, Seq<char>)>) -> Seq<Seq<char>> {
    s.map_values(|e: (T, Seq<char>)| e.1)
}

impl<T> FreeMonoid<T> {
    /// Ranges tile the store: the first starts at zero, each later one starts
    /// where its predecessor ended, and the last ends at the store's end.
    pub closed spec fn wf(self) -> bool {
        &&& forall|i: int|
            0 <= i < self.labels@.len() ==> {
                &&& (#[trigger] self.labels@[i]).0 == if i == 0 {
                    0int
                } else {
                    self.labels@[i - 1].1 as int
                }
                &&& self.labels@[i].0 <= self.labels@[i].1 <= self.payload@.len()
            }
        &&& if self.labels@.len() == 0 {
            self.payload@.len() == 0
        } else {
            self.labels@[self.labels@.len() - 1].1 == self.payload@.len()
        }
    }

    /// The full text store.
    pub closed spec fn stored_text(self) -> Seq<char> {
        self.payload@
    }

    /// The byte length of the stored text.
    pub closed spec fn byte_length(self) -> usize {
        vstd::utf8::encode_utf8(self.payload@).len() as usize
    }

    /// Length of stored text in bytes.
    ///
    /// Does not account for space required to render the annotations.
    pub fn len(&self) -> (n: usize)
        ensures
            n == self.byte_length(),
    {
        self.payload.as_str().len()
    }

    /// Is there anything inside?
    ///
    /// Returns `true` if both the store and the tag list are empty.
    pub fn is_empty(&self) -> (r: bool)
        ensures
            r == (self@.len() == 0 && self.stored_text().len() == 0),
    {
        self.payload.as_str().is_empty() && self.labels.len() == 0
    }

    /// Clear stored data.
    pub fn clear(&mut self)
        ensures
            final(self).wf(),
            final(self)@ == Seq::<(T, Seq<char>)>::empty(),
            final(self).stored_text() == Seq::<char>::empty(),
    {
        self.payload = String::new();
        self.labels.clear();
        proof {
            assert(final(self)@ =~= Seq::<(T, Seq<char>)>::empty());
        }
    }

    /// Append an annotated string slice.
    pub fn push(&mut self, meta: T, payload: &str)
        requires
            old(self).wf(),
        ensures
            final(self).wf(),
            final(self)@ == old(self)@ + seq![(meta, payload@)],
            final(self).stored_text() == old(self).stored_text() + payload@,
    {
        let start = self.payload.as_str().unicode_len();
        self.payload.append(payload);
        let end = self.payload.as_str().unicode_len();
        self.labels.push((start, end, meta));
        proof {
            let oldv = old(self)@;
            let newv = final(self)@;
            assert forall|i: int| 0 <= i < oldv.len() implies newv[i] == oldv[i] by {
                assert(final(self).payload@.subrange(
                    old(self).labels@[i].0 as int,
                    old(self).labels@[i].1 as int,
                ) =~= old(self).payload@.subrange(
                    old(self).labels@[i].0 as int,
                    old(self).labels@[i].1 as int,
                ));
            }
            assert(newv[oldv.len() as int].1 =~= payload@);
            assert(newv =~~= oldv + seq![(meta, payload@)]);
        }
    }

    /// Append a single annotated character.
    pub fn push_char(&mut self, meta: T, c: char)
        requires
            old(self).wf(),
        ensures
            final(self).wf(),
            final(self)@ == old(self)@ + seq![(meta, seq![c])],
            final(self).stored_text() == old(self).stored_text().push(c),
    {
        let start = self.payload.as_str().unicode_len();
        crate::escape::push_char(&mut self.payload, c);
        let end = self.payload.as_str().unicode_len();
        self.labels.push((start, end, meta));
        proof {
            let oldv = old(self)@;
            let newv = final(self)@;
            assert forall|i: int| 0 <= i < oldv.len() implies newv[i] == oldv[i] by {
                assert(final(self).payload@.subrange(
                    old(self).labels@[i].0 as int,
                    old(self).labels@[i].1 as int,
                ) =~= old(self).payload@.subrange(
                    old(self).labels@[i].0 as int,
                    old(self).labels@[i].1 as int,
                ));
            }
            assert(newv[oldv.len() as int].1 =~= seq![c]);
            assert(newv =~~= oldv + seq![(meta, seq![c])]);
        }
    }

    /// How many annotated entries the buffer holds.
    pub fn entry_count(&self) -> (n: usize)
        ensures
            n == self@.len(),
    {
        self.labels.len()
    }

    /// Read one annotated entry: its tag and the slice of the store it covers.
    pub fn entry(&self, i: usize) -> (r: (&T, &str))
        requires
            self.wf(),
            i < self@.len(),
        ensures
            *r.0 == self@[i as int].0,
            r.1@ == self@[i as int].1,
    {
        let (start, end, _) = self.labels[i];
        (&self.labels[i].2, self.payload.as_str().substring_char(start, end))
    }
}

impl<T: Copy> FreeMonoid<T> {
    /// Append another buffer's contents after this one's, shifting its ranges
    /// past this store's end.
    #[verifier::rlimit(60)]
    pub fn append(&mut self, rhs: &Self)
        requires
            old(self).wf(),
            rhs.wf(),
        ensures
            final(self).wf(),
            final(self)@ == old(self)@ + rhs@,
            final(self).stored_text() == old(self).stored_text() + rhs.stored_text(),
    {
        let n = rhs.entry_count();
        for i in 0..n
            invariant
                n == rhs@.len(),
                self.wf(),
                rhs.wf(),
                self@ == old(self)@ + rhs@.take(i as int),
                self.stored_text() == old(self).stored_text() + entry_texts(
                    rhs@.take(i as int),
                ).flatten(),
        {
            let (meta, slice) = rhs.entry(i);
            self.push(*meta, slice);
            proof {
                assert(rhs@.take(i + 1) =~= rhs@.take(i as int).push(rhs@[i as int]));
                assert(self@ =~= old(self)@ + rhs@.take(i + 1));
                assert(entry_texts(rhs@.take(i + 1)) =~= entry_texts(rhs@.take(i as int)).push(
                    rhs@[i as int].1,
                ));
                Seq::lemma_flatten_push(entry_texts(rhs@.take(i as int)), rhs@[i as int].1);
            }
        }
        proof {
            assert(rhs@.take(rhs@.len() as int) =~= rhs@);
            lemma_round_trip(*rhs);
        }
    }

    /// Concatenate two buffers into a new one.
    ///
    /// The result's store is `self`'s followed by `rhs`'s, and its tag list is
    /// `self`'s followed by `rhs`'s with ranges shifted accordingly.
    pub fn concat(self, rhs: &Self) -> (r: Self)
        requires
            self.wf(),
            rhs.wf(),
        ensures
            r.wf(),
            r@ == self@ + rhs@,
            r.stored_text() == self.stored_text() + rhs.stored_text(),
    {
        let mut r = self;
        r.append(rhs);
        r
    }
}

impl<T> Default for FreeMonoid<T> {
    /// The empty buffer, the identity element of concatenation.
    fn default() -> (r: Self)
        ensures
            r.wf(),
            r@ == Seq::<(T, Seq<char>)>::empty(),
            r.stored_text() == Seq::<char>::empty(),
    {
        let r = FreeMonoid { payload: String::new(), labels: Vec::new() };
        proof {
            assert(r@ =~= Seq::<(T, Seq<char>)>::empty());
        }
        r
    }
}

/// Monoid law: concatenation of buffer contents is associative.
///
/// Concatenating `a` with `b` and then with `c` yields the same entries and
/// the same stored text as concatenating `a` with the concatenation of `b`
/// and `c`.
pub proof fn lemma_concat_associative<T>(a: FreeMonoid<T>, b: FreeMonoid<T>, c: FreeMonoid<T>)
    ensures
        (a@ + b@) + c@ == a@ + (b@ + c@),
        (a.stored_text() + b.stored_text()) + c.stored_text() == a.stored_text() + (
        b.stored_text() + c.stored_text()),
{
    assert((a@ + b@) + c@ =~= a@ + (b@ + c@));
    assert((a.stored_text() + b.stored_text()) + c.stored_text() =~= a.stored_text() + (
    b.stored_text() + c.stored_text()));
}

/// Monoid law: the empty buffer is a two-sided identity of concatenation.
pub proof fn lemma_concat_identity<T>(a: FreeMonoid<T>, e: FreeMonoid<T>)
    requires
        e@ == Seq::<(T, Seq<char>)>::empty(),
        e.stored_text() == Seq::<char>::empty(),
    ensures
        a@ + e@ == a@,
        e@ + a@ == a@,
        a.stored_text() + e.stored_text() == a.stored_text(),
        e.stored_text() + a.stored_text() == a.stored_text(),
{
    assert(a@ + e@ =~= a@);
    assert(e@ + a@ =~= a@);
    assert(a.stored_text() + e.stored_text() =~= a.stored_text());
    assert(e.stored_text() + a.stored_text() =~= a.stored_text());
}

/// Iteration round-trip: reading the entries in order and concatenating their
/// texts reproduces the buffer's raw store exactly.
pub proof fn lemma_round_trip<T>(m: FreeMonoid<T>)
    requires
        m.wf(),
    ensures
        entry_texts(m@).flatten() == m.stored_text(),
{
    lemma_round_trip_prefix(m, m.labels@.len() as int);
    assert(m@.take(m@.len() as int) =~= m@);
    if m.labels@.len() == 0 {
        assert(entry_texts(m@) =~= Seq::<Seq<char>>::empty());
        assert(entry_texts(m@).flatten() =~= m.payload@);
    } else {
        assert(m.payload@.take(m.labels@[m.labels@.len() - 1].1 as int) =~= m.payload@);
    }
}

/// Two well formed buffers with the same entries hold the same text: the
/// entries are a faithful abstraction of the store.
pub proof fn lemma_entries_determine_text<T>(a: FreeMonoid<T>, b: FreeMonoid<T>)
    requires
        a.wf(),
        b.wf(),
        a@ == b@,
    ensures
        a.stored_text() == b.stored_text(),
{
    lemma_round_trip(a);
    lemma_round_trip(b);
}

/// What [`FreeMonoid::len`] measures: the length of the UTF-8 encoding of
/// the stored text.
pub proof fn lemma_byte_length_is_utf8_length<T>(m: FreeMonoid<T>)
    ensures
        m.byte_length() == vstd::utf8::encode_utf8(m.stored_text()).len() as usize,
{
}

/// The texts of the first `n` entries concatenate to the store up to the end
/// of the `n`-th range.
#[verifier::rlimit(60)]
proof fn lemma_round_trip_prefix<T>(m: FreeMonoid<T>, n: int)
    requires
        m.wf(),
        0 <= n <= m.labels@.len(),
    ensures
        entry_texts(m@.take(n)).flatten() == if n == 0 {
            Seq::<char>::empty()
        } else {
            m.payload@.take(m.labels@[n - 1].1 as int)
        },
    decreases n,
{
    if n == 0 {
        assert(entry_texts(m@.take(0)) =~= Seq::<Seq<char>>::empty());
    } else {
        lemma_round_trip_prefix(m, n - 1);
        let prev = entry_texts(m@.take(n - 1));
        let last = m@[n - 1].1;
        assert(m@.take(n) =~= m@.take(n - 1).push(m@[n - 1]));
        assert(entry_texts(m@.take(n)) =~= prev.push(last));
        Seq::lemma_flatten_push(prev, last);
        let l = m.labels@[n - 1];
        assert(m@[n - 1].1 == m.payload@.subrange(l.0 as int, l.1 as int));
        if n == 1 {
            assert(prev.flatten() + last =~= m.payload@.take(l.1 as int));
        } else {
            assert(l.0 == m.labels@[n - 2].1);
            assert(m.payload@.take(l.0 as int) + m.payload@.subrange(l.0 as int, l.1 as int)
                =~= m.payload@.take(l.1 as int));
        }
    }
}

} // verus!
