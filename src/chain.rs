//! The filter chain: a single-use cursor over an application's filters,
//! ending at the endpoint, and what running the chain looks like from
//! outside.
use vstd::prelude::*;

verus! {

/// A position in a chain of `len` filters: the filters from `index` on, then
/// the endpoint, are still to run. Taking a step consumes the cursor.
pub struct Cursor {
    index: usize,
    len: usize,
}

/// What a cursor runs next.
pub enum Step {
    /// The filter at this position, with the cursor that it continues with.
    Filter(usize, Cursor),
    /// The endpoint: no filter is left.
    Endpoint,
}

impl Cursor {
    pub closed spec fn index_spec(&self) -> nat {
        self.index as nat
    }

    pub closed spec fn len_spec(&self) -> nat {
        self.len as nat
    }

    /// A cursor at the start of a chain of `len` filters.
    pub fn start(len: usize) -> (r: Cursor)
        ensures
            r.index_spec() == 0,
            r.len_spec() == len,
    {
        Cursor { index: 0, len }
    }

    /// The filter at the cursor and the cursor past it, or the endpoint when
    /// no filter is left: one step of `run`, whichever filters hand the
    /// request on.
    pub fn step(self) -> (r: Step)
        ensures
            self.index_spec() < self.len_spec() ==> (r matches Step::Filter(i, rest) && i
                == self.index_spec() && rest.index_spec() == self.index_spec() + 1
                && rest.len_spec() == self.len_spec()),
            self.index_spec() >= self.len_spec() ==> r is Endpoint,
            forall|passes: Seq<bool>| #[trigger]
                run(self.index_spec(), self.len_spec(), passes) == match r {
                    Step::Filter(i, rest) => if passes[i as int] {
                        seq![Event::Pre(i as nat)] + run(rest.index_spec(), rest.len_spec(), passes)
                            + seq![Event::Post(i as nat)]
                    } else {
                        seq![Event::Pre(i as nat), Event::Post(i as nat)]
                    },
                    Step::Endpoint => seq![Event::Endpoint],
                },
    {
        if self.index < self.len {
            Step::Filter(self.index, Cursor { index: self.index + 1, len: self.len })
        } else {
            Step::Endpoint
        }
    }
}

/// What is observed of a request as it runs through a chain.
pub enum Event {
    /// Filter `i` starts, before it hands the request on.
    Pre(nat),
    /// The endpoint runs.
    Endpoint,
    /// Filter `i` finishes, after what it handed the request to returned.
    Post(nat),
}

/// The events of running a chain of `len` filters from position `index`,
/// stepping the cursor as `Cursor::step` does, where filter `i` hands the
/// request on exactly when `passes[i]` holds.
pub open spec fn run(index: nat, len: nat, passes: Seq<bool>) -> Seq<Event>
    decreases len - index,
{
    if index < len {
        if passes[index as int] {
            seq![Event::Pre(index)] + run(index + 1, len, passes) + seq![Event::Post(index)]
        } else {
            seq![Event::Pre(index), Event::Post(index)]
        }
    } else {
        seq![Event::Endpoint]
    }
}

/// The starts of filters `from .. len`, in order.
pub open spec fn pres(from: nat, len: nat) -> Seq<Event> {
    Seq::new((len - from) as nat, |i: int| Event::Pre((from + i) as nat))
}

/// The ends of filters `from .. len`, innermost first.
pub open spec fn posts(from: nat, len: nat) -> Seq<Event> {
    Seq::new((len - from) as nat, |i: int| Event::Post((len - 1 - i) as nat))
}

proof fn lemma_run_all_pass(index: nat, len: nat, passes: Seq<bool>)
    requires
        index <= len,
        passes.len() >= len,
        forall|i: int| 0 <= i < len ==> passes[i],
    ensures
        run(index, len, passes) == pres(index, len) + seq![Event::Endpoint] + posts(index, len),
    decreases len - index,
{
    if index < len {
        lemma_run_all_pass(index + 1, len, passes);
        assert(pres(index, len) =~= seq![Event::Pre(index)] + pres(index + 1, len));
        assert(posts(index, len) =~= posts(index + 1, len) + seq![Event::Post(index)]);
        assert(run(index, len, passes) =~= pres(index, len) + seq![Event::Endpoint] + posts(
            index,
            len,
        ));
    } else {
        assert(pres(index, len) =~= Seq::<Event>::empty());
        assert(posts(index, len) =~= Seq::<Event>::empty());
        assert(run(index, len, passes) =~= pres(index, len) + seq![Event::Endpoint] + posts(
            index,
            len,
        ));
    }
}

/// When every filter hands the request on, filters `A, B, ...` registered in
/// that order run as `A` starts, `B` starts, ..., the endpoint, ..., `B`
/// ends, `A` ends.
pub proof fn lemma_chain_order(len: nat, passes: Seq<bool>)
    requires
        passes.len() == len,
        forall|i: int| 0 <= i < len ==> passes[i],
    ensures
        run(0, len, passes) == pres(0, len) + seq![Event::Endpoint] + posts(0, len),
{
    lemma_run_all_pass(0, len, passes);
}

proof fn lemma_run_stops(index: nat, len: nat, passes: Seq<bool>, k: nat)
    requires
        index <= k < len,
        passes.len() == len,
        !passes[k as int],
    ensures
        forall|e: Event| #[trigger] run(index, len, passes).contains(e) ==> !(e is Endpoint) && (
        (e matches Event::Pre(j)) ==> e->Pre_0 <= k),
    decreases len - index,
{
    if index < k {
        if passes[index as int] {
            lemma_run_stops(index + 1, len, passes, k);
            let inner = run(index + 1, len, passes);
            assert forall|e: Event| #[trigger] run(index, len, passes).contains(e) implies !(e is Endpoint) && (
            (e matches Event::Pre(j)) ==> e->Pre_0 <= k) by {
                let r = run(index, len, passes);
                let n = choose|n: int| 0 <= n < r.len() && r[n] == e;
                if 0 < n < r.len() - 1 {
                    assert(inner[n - 1] == e);
                    assert(inner.contains(e));
                }
            }
        }
    }
}

/// When filter `k` returns without handing the request on, and the filters
/// before it do hand it on, neither the endpoint nor any filter after `k`
/// starts.
pub proof fn lemma_short_circuit(len: nat, passes: Seq<bool>, k: nat)
    requires
        k < len,
        passes.len() == len,
        !passes[k as int],
    ensures
        !run(0, len, passes).contains(Event::Endpoint),
        forall|j: nat| k < j ==> !#[trigger] run(0, len, passes).contains(Event::Pre(j)),
{
    lemma_run_stops(0, len, passes, k);
    assert forall|j: nat| k < j implies !#[trigger] run(0, len, passes).contains(Event::Pre(j)) by {
        if run(0, len, passes).contains(Event::Pre(j)) {
            assert(Event::Pre(j)->Pre_0 <= k);
        }
    }
}

} // verus!
