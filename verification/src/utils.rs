use vstd::prelude::*;
use vstd::string::StrSliceExecFns;
use vstd::string::StringExecFns;

verus! {

/// Longest stored form of one summary item, in characters; anything longer
/// is cut at this many characters and marked with the ellipsis marker.
pub const MSG_SUMMARY_LIMIT: usize = 30;

/// What `append` stores for a produced string: the string itself when it is
/// short enough, else its first `MSG_SUMMARY_LIMIT` characters followed by
/// the ellipsis marker.
pub open spec fn clipped(s: Seq<char>) -> Seq<char> {
    if s.len() <= MSG_SUMMARY_LIMIT {
        s
    } else {
        s.subrange(0, MSG_SUMMARY_LIMIT as int) + "...]"@
    }
}

/// Cuts one summary string to the character cap, marking the cut.
pub fn clip_summary(s: String) -> (r: String)
    ensures
        r@ == clipped(s@),
{
    let n = s.as_str().unicode_len();
    if n <= MSG_SUMMARY_LIMIT {
        s
    } else {
        let head = s.as_str().substring_char(0, MSG_SUMMARY_LIMIT);
        head.to_owned().concat("...]")
    }
}

/// A bounded, lazily filled collection of one-line summaries: at most
/// `limit` accepted items, each clipped to `MSG_SUMMARY_LIMIT` characters;
/// once an item is turned away the overflow flag is set and later producers
/// are never evaluated.
pub struct SizedSummary {
    is_full: bool,
    limit: usize,
    data: Vec<String>,
}

impl SizedSummary {
    /// The bound the summary maintains at all times: it never holds more
    /// items than its cap.
    #[verifier::type_invariant]
    spec fn bounded(self) -> bool {
        self.data@.len() <= self.limit
    }

    /// The stored items, as character sequences, in acceptance order.
    pub closed spec fn items(&self) -> Seq<Seq<char>> {
        self.data@.map(|i: int, s: String| s@)
    }

    /// Whether a producer has been turned away.
    pub closed spec fn overflowed(&self) -> bool {
        self.is_full
    }

    /// The cap this summary was created with.
    pub closed spec fn capacity(&self) -> nat {
        self.limit as nat
    }

    pub fn new(limit: usize) -> (r: Self)
        ensures
            r.items() =~= Seq::<Seq<char>>::empty(),
            !r.overflowed(),
            r.capacity() == limit as nat,
    {
        SizedSummary { is_full: false, limit, data: Vec::new() }
    }

    pub fn len(&self) -> (r: usize)
        ensures
            r == self.items().len(),
            r <= self.capacity(),
    {
        proof {
            use_type_invariant(self);
        }
        self.data.len()
    }

    /// Accepts one lazily produced summary line. A producer offered after
    /// the cap is reached is not evaluated; it only sets the overflow flag.
    pub fn append<F: FnOnce() -> String>(&mut self, generate_msg: F)
        requires
            call_requires(generate_msg, ()),
        ensures
            final(self).capacity() == old(self).capacity(),
            old(self).overflowed() ==> *final(self) == *old(self),
            !old(self).overflowed() && old(self).items().len() >= old(self).capacity() ==> {
                &&& final(self).overflowed()
                &&& final(self).items() == old(self).items()
            },
            !old(self).overflowed() && old(self).items().len() < old(self).capacity() ==> {
                &&& !final(self).overflowed()
                &&& exists|s: String|
                    call_ensures(generate_msg, (), s) && final(self).items() =~= old(
                        self,
                    ).items().push(clipped(s@))
            },
    {
        proof {
            use_type_invariant(&*self);
        }
        if !self.is_full {
            if self.data.len() >= self.limit {
                self.is_full = true;
            } else {
                let ghost prior = *self;
                let msg = generate_msg();
                let c = clip_summary(msg);
                let mut held: Vec<String> = Vec::new();
                core::mem::swap(&mut held, &mut self.data);
                held.push(c);
                core::mem::swap(&mut held, &mut self.data);
                proof {
                    assert(self.items() =~= prior.items().push(c@));
                }
            }
        }
    }

    /// The one-line rendering of `items` with overflow flag `overflow`:
    /// no items gives the placeholder, one item is given verbatim, more are
    /// comma-joined and bracket-wrapped, with a trailing ", ..." marker when
    /// the summary overflowed.
    pub open spec fn rendered(items: Seq<Seq<char>>, overflow: bool) -> Seq<char> {
        if items.len() == 0 {
            "Empty"@
        } else if items.len() == 1 {
            items[0]
        } else {
            "["@ + Self::joined(items) + (if overflow {
                ", ..."@
            } else {
                Seq::<char>::empty()
            }) + "]"@
        }
    }

    /// The comma-separated join of `items`.
    pub open spec fn joined(items: Seq<Seq<char>>) -> Seq<char>
        decreases items.len(),
    {
        if items.len() == 0 {
            Seq::empty()
        } else if items.len() == 1 {
            items[0]
        } else {
            Self::joined(items.drop_last()) + ", "@ + items.last()
        }
    }

    /// Renders the summary as one display line.
    pub fn render(&self) -> (r: String)
        ensures
            r@ == Self::rendered(self.items(), self.overflowed()),
    {
        if self.data.len() == 0 {
            return "Empty".to_owned();
        }
        if self.data.len() == 1 {
            return self.data[0].clone();
        }
        let mut acc = String::new();
        let mut i: usize = 0;
        while i < self.data.len()
            invariant
                i <= self.data@.len(),
                acc@ == Self::joined(self.items().take(i as int)),
            decreases self.data@.len() - i,
        {
            if i > 0 {
                acc.append(", ");
            }
            acc.append(self.data[i].as_str());
            proof {
                let items = self.items();
                assert(items.take(i + 1).drop_last() =~= items.take(i as int));
                assert(items.take(i + 1).last() == items[i as int]);
            }
            i += 1;
        }
        proof {
            assert(self.items().take(self.data@.len() as int) =~= self.items());
        }
        let mut out = String::from_str("[");
        out.append(acc.as_str());
        if self.is_full {
            out.append(", ...");
        }
        out.append("]");
        proof {
            assert(out@ =~= Self::rendered(self.items(), self.overflowed()));
        }
        out
    }
}

} // verus!
