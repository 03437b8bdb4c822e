//! Operation registry: the one cancellation mechanism behind `op:cancel`.
//!
//! Every long-running operation registers here and gets a handle.  A cancel
//! flips the operation's flag once; a finished operation is no longer live,
//! so a late cancel reports "not found" instead of pretending to stop it.
//! The flag of a handle outlives the registration, as the handle does.

use vstd::prelude::*;
use crate::text::{push_str, push_hex_padded, spec_hex_padded, spec_hex, hex_digit, repeat_char};
use crate::scan::chars_of;
use crate::contract::{ErrorCode, IpcFailure};
use crate::doctor::texts;

verus! {

broadcast use vstd::string::group_string_axioms;

/// Lexicographic order on character sequences (the order of `String`).
pub open spec fn seq_lt(a: Seq<char>, b: Seq<char>) -> bool
    decreases a.len(),
{
    if a.len() == 0 {
        b.len() > 0
    } else if b.len() == 0 {
        false
    } else if a[0] == b[0] {
        seq_lt(a.drop_first(), b.drop_first())
    } else {
        (a[0] as u32) < (b[0] as u32)
    }
}

/// Exactly one of `a < b`, `a == b`, `b < a`.
pub proof fn lemma_seq_lt_total(a: Seq<char>, b: Seq<char>)
    ensures
        seq_lt(a, b) || a == b || seq_lt(b, a),
        !(seq_lt(a, b) && seq_lt(b, a)),
        !(seq_lt(a, b) && a == b),
    decreases a.len(),
{
    if a.len() > 0 && b.len() > 0 {
        if a[0] == b[0] {
            lemma_seq_lt_total(a.drop_first(), b.drop_first());
            if a.drop_first() == b.drop_first() {
                assert(a =~= seq![a[0]] + a.drop_first());
                assert(b =~= seq![b[0]] + b.drop_first());
            }
        } else {
            vstd::utf8::char_u32_cast(a[0], a[0] as u32);
            vstd::utf8::char_u32_cast(b[0], b[0] as u32);
        }
    } else if a.len() == 0 && b.len() == 0 {
        assert(a =~= b);
    }
}

/// `<` on character sequences is transitive.
pub proof fn lemma_seq_lt_transitive(a: Seq<char>, b: Seq<char>, c: Seq<char>)
    requires
        seq_lt(a, b),
        seq_lt(b, c),
    ensures
        seq_lt(a, c),
    decreases a.len(),
{
    if a.len() > 0 && b.len() > 0 && c.len() > 0 && a[0] == b[0] && b[0] == c[0] {
        lemma_seq_lt_transitive(a.drop_first(), b.drop_first(), c.drop_first());
    } else if a.len() > 0 && b.len() > 0 && c.len() > 0 {
        vstd::utf8::char_u32_cast(a[0], a[0] as u32);
        vstd::utf8::char_u32_cast(b[0], b[0] as u32);
        vstd::utf8::char_u32_cast(c[0], c[0] as u32);
    }
}

fn compare_ids(a: &String, b: &String) -> (r: i8)
    ensures
        r < 0 <==> seq_lt(a@, b@),
        r == 0 <==> a@ == b@,
        r > 0 <==> seq_lt(b@, a@),
{
    let x = chars_of(a.as_str());
    let y = chars_of(b.as_str());
    let mut i: usize = 0;
    proof {
        lemma_seq_lt_total(a@, b@);
        assert(a@.skip(0) =~= a@);
        assert(b@.skip(0) =~= b@);
    }
    while i < x.len() && i < y.len() && x[i] == y[i]
        invariant
            i <= x.len(),
            i <= y.len(),
            x@ == a@,
            y@ == b@,
            forall|k: int| 0 <= k < i ==> x@[k] == y@[k],
            seq_lt(a@, b@) == seq_lt(a@.skip(i as int), b@.skip(i as int)),
            seq_lt(b@, a@) == seq_lt(b@.skip(i as int), a@.skip(i as int)),
        decreases x.len() - i,
    {
        assert(a@.skip(i as int).drop_first() =~= a@.skip(i + 1));
        assert(b@.skip(i as int).drop_first() =~= b@.skip(i + 1));
        assert(a@.skip(i as int)[0] == x@[i as int]);
        assert(b@.skip(i as int)[0] == y@[i as int]);
        i = i + 1;
    }
    proof {
        lemma_seq_lt_total(a@, b@);
    }
    if i == x.len() && i == y.len() {
        assert(a@ =~= b@);
        0
    } else if i == x.len() {
        assert(a@.skip(i as int).len() == 0);
        -1
    } else if i == y.len() {
        assert(b@.skip(i as int).len() == 0);
        1
    } else {
        assert(a@.skip(i as int)[0] == x@[i as int]);
        assert(b@.skip(i as int)[0] == y@[i as int]);
        if (x[i] as u32) < (y[i] as u32) {
            -1
        } else {
            proof {
                vstd::utf8::char_u32_cast(x@[i as int], x@[i as int] as u32);
                vstd::utf8::char_u32_cast(y@[i as int], y@[i as int] as u32);
            }
            1
        }
    }
}

/// A registered operation, as its owner holds it.
#[derive(Debug, Clone)]
pub struct OpHandle {
    pub op_id: String,
    pub kind: String,
    /// Which cancellation flag of the registry belongs to this handle.
    pub flag: usize,
}

/// What a cancel request found.
#[derive(Debug, Clone, Copy, PartialEq, Eq)]
pub enum CancelOutcome {
    /// A live operation was asked to stop.
    Cancelled,
    /// The operation exists but was already cancelled earlier.
    AlreadyCancelled,
    /// No live operation under that id.
    NotFound,
}

/// One live operation: its id, kind, and the flag its handles read.
#[derive(Debug)]
pub struct LiveOp {
    op_id: String,
    kind: String,
    flag: usize,
}

/// The registry: live operations (at most one per id), one cancellation
/// flag per registration ever made, and the counter that mints ids.
#[derive(Debug)]
pub struct OpRegistry {
    live: Vec<LiveOp>,
    flags: Vec<bool>,
    counter: u64,
}

/// A live operation's content: id, flag index, kind.
pub type LiveEntry = (Seq<char>, usize, Seq<char>);

/// The content of a registry.
pub struct RegistryView {
    pub live: Seq<LiveEntry>,
    pub flags: Seq<bool>,
    pub counter: u64,
}

/// The entries of live operations.
pub closed spec fn live_entries(v: Seq<LiveOp>) -> Seq<LiveEntry> {
    Seq::new(v.len(), |i: int| (v[i].op_id@, v[i].flag, v[i].kind@))
}

impl View for OpRegistry {
    type V = RegistryView;

    closed spec fn view(&self) -> RegistryView {
        RegistryView { live: live_entries(self.live@), flags: self.flags@, counter: self.counter }
    }
}

/// Well-formed: no id live twice, every flag index in range.
pub open spec fn registry_wf(r: RegistryView) -> bool {
    &&& forall|i: int, j: int|
        0 <= i < j < r.live.len() ==> #[trigger] r.live[i].0 != #[trigger] r.live[j].0
    &&& forall|i: int| 0 <= i < r.live.len() ==> #[trigger] r.live[i].1 < r.flags.len()
}

/// Index of the first live entry at or after `i` with id `id`.
pub open spec fn op_index(live: Seq<LiveEntry>, id: Seq<char>, i: int) -> int
    decreases live.len() - i,
{
    if i < 0 || i >= live.len() {
        live.len() as int
    } else if live[i].0 == id {
        i
    } else {
        op_index(live, id, i + 1)
    }
}

pub proof fn lemma_op_index(live: Seq<LiveEntry>, id: Seq<char>, i: int)
    requires
        0 <= i <= live.len(),
    ensures
        i <= op_index(live, id, i) <= live.len(),
        op_index(live, id, i) < live.len() ==> live[op_index(live, id, i)].0 == id,
        forall|k: int| i <= k < op_index(live, id, i) ==> live[k].0 != id,
    decreases live.len() - i,
{
    if i < live.len() && live[i].0 != id {
        lemma_op_index(live, id, i + 1);
    }
}

/// Is `id` live?
pub open spec fn is_live(r: RegistryView, id: Seq<char>) -> bool {
    op_index(r.live, id, 0) < r.live.len()
}

/// The live entries after registering `id` as `(flag, kind)`: the entry of a
/// live `id` is replaced, else one is appended.
pub open spec fn spec_put(live: Seq<LiveEntry>, id: Seq<char>, flag: usize, kind: Seq<char>) -> Seq<
    LiveEntry,
> {
    let k = op_index(live, id, 0);
    if k < live.len() {
        live.update(k, (id, flag, kind))
    } else {
        live.push((id, flag, kind))
    }
}

/// The id minted for the `n`-th registration: `op-` and `n` in lower-case
/// hexadecimal, at least four digits.
pub open spec fn minted_id(n: nat) -> Seq<char> {
    "op-"@ + spec_hex_padded(n, 4)
}

/// What `cancel(id)` answers.
pub open spec fn spec_cancel_outcome(r: RegistryView, id: Seq<char>) -> CancelOutcome {
    let k = op_index(r.live, id, 0);
    if k >= r.live.len() {
        CancelOutcome::NotFound
    } else if r.flags[r.live[k].1 as int] {
        CancelOutcome::AlreadyCancelled
    } else {
        CancelOutcome::Cancelled
    }
}

/// The flags after `cancel(id)`.
pub open spec fn spec_cancel_flags(r: RegistryView, id: Seq<char>) -> Seq<bool> {
    let k = op_index(r.live, id, 0);
    if k >= r.live.len() {
        r.flags
    } else {
        r.flags.update(r.live[k].1 as int, true)
    }
}

impl OpHandle {
    /// Has this operation been asked to stop?
    pub fn is_cancelled(&self, registry: &OpRegistry) -> (r: bool)
        requires
            self.flag_index() < registry@.flags.len(),
        ensures
            r == registry@.flags[self.flag_index() as int],
    {
        registry.flags[self.flag]
    }

    /// Requests cancellation; true when this call set the flag.
    pub fn cancel(&self, registry: &mut OpRegistry) -> (flipped: bool)
        requires
            self.flag_index() < old(registry)@.flags.len(),
        ensures
            flipped == !old(registry)@.flags[self.flag_index() as int],
            final(registry)@.flags == old(registry)@.flags.update(self.flag_index() as int, true),
            final(registry)@.live == old(registry)@.live,
            final(registry)@.counter == old(registry)@.counter,
    {
        let was = registry.flags[self.flag];
        registry.flags.set(self.flag, true);
        !was
    }

    /// The index of this handle's flag in its registry.
    pub open spec fn flag_index(&self) -> usize {
        self.flag
    }
}

fn same_id(a: &String, b: &String) -> (r: bool)
    ensures
        r == (a@ == b@),
{
    *a == *b
}

impl OpRegistry {
    /// An empty registry.
    pub fn new() -> (r: Self)
        ensures
            r@.live.len() == 0,
            r@.flags.len() == 0,
            r@.counter == 0,
            registry_wf(r@),
    {
        let r = OpRegistry { live: Vec::new(), flags: Vec::new(), counter: 0 };
        assert(r@.live =~= Seq::<LiveEntry>::empty());
        r
    }

    /// How many ids `register` has minted so far.
    pub fn registrations(&self) -> (n: u64)
        ensures
            n == self@.counter,
    {
        self.counter
    }

    /// How many operations were ever registered (one flag each).
    pub fn flag_count(&self) -> (n: usize)
        ensures
            n == self@.flags.len(),
    {
        self.flags.len()
    }

    fn find(&self, op_id: &String) -> (r: usize)
        ensures
            r == op_index(self@.live, op_id@, 0),
            r <= self.live.len(),
    {
        let mut i: usize = 0;
        while i < self.live.len()
            invariant
                i <= self.live.len(),
                op_index(self@.live, op_id@, i as int) == op_index(self@.live, op_id@, 0),
            decreases self.live.len() - i,
        {
            if same_id(&self.live[i].op_id, op_id) {
                return i;
            }
            i = i + 1;
        }
        i
    }

    /// Registers an operation under a fresh id `op-NNNN` (lower-case hex,
    /// counting from 1).
    pub fn register(&mut self, kind: &str) -> (h: OpHandle)
        requires
            registry_wf(old(self)@),
            old(self)@.counter < u64::MAX,
            old(self)@.flags.len() < usize::MAX,
        ensures
            final(self)@.counter == old(self)@.counter + 1,
            h.op_id@ == minted_id(final(self)@.counter as nat),
            h.kind@ == kind@,
            h.flag_index() == old(self)@.flags.len(),
            final(self)@.flags == old(self)@.flags.push(false),
            final(self)@.live == spec_put(old(self)@.live, h.op_id@, h.flag_index(), kind@),
            registry_wf(final(self)@),
    {
        self.counter = self.counter + 1;
        assert(self@.live == old(self)@.live && self@.flags == old(self)@.flags);
        let mut id = String::new();
        push_str(&mut id, "op-");
        push_hex_padded(&mut id, self.counter, 4);
        self.register_with_id(id.as_str(), kind)
    }

    /// Registers an operation under an explicit id; an operation already
    /// live under that id is replaced (its handles keep their own flag).
    pub fn register_with_id(&mut self, op_id: &str, kind: &str) -> (h: OpHandle)
        requires
            registry_wf(old(self)@),
            old(self)@.flags.len() < usize::MAX,
        ensures
            h.op_id@ == op_id@,
            h.kind@ == kind@,
            h.flag_index() == old(self)@.flags.len(),
            final(self)@.flags == old(self)@.flags.push(false),
            final(self)@.counter == old(self)@.counter,
            final(self)@.live == spec_put(old(self)@.live, op_id@, h.flag_index(), kind@),
            registry_wf(final(self)@),
    {
        let mut id = String::new();
        push_str(&mut id, op_id);
        let mut kind_text = String::new();
        push_str(&mut kind_text, kind);
        let flag = self.flags.len();
        self.flags.push(false);
        let k = self.find(&id);
        proof {
            lemma_op_index(old(self)@.live, op_id@, 0);
        }
        let ghost old_live = self@.live;
        if k < self.live.len() {
            self.live.set(k, LiveOp { op_id: id.clone(), kind: kind_text.clone(), flag });
            assert(self@.live =~= old_live.update(k as int, (op_id@, flag, kind@)));
        } else {
            self.live.push(LiveOp { op_id: id.clone(), kind: kind_text.clone(), flag });
            assert(self@.live =~= old_live.push((op_id@, flag, kind@)));
        }
        OpHandle { op_id: id, kind: kind_text, flag }
    }

    /// The operation is over: it is no longer live.
    pub fn finish(&mut self, op_id: &str)
        requires
            registry_wf(old(self)@),
        ensures
            final(self)@.live == old(self)@.live.filter(|e: LiveEntry| e.0 != op_id@),
            final(self)@.flags == old(self)@.flags,
            final(self)@.counter == old(self)@.counter,
            registry_wf(final(self)@),
    {
        let mut id = String::new();
        push_str(&mut id, op_id);
        let ghost old_live = self@.live;
        let ghost keep = |e: LiveEntry| e.0 != op_id@;
        let mut kept: Vec<LiveOp> = Vec::new();
        let mut i: usize = 0;
        proof {
            reveal(Seq::filter);
            assert(old_live.take(0) =~= Seq::<LiveEntry>::empty());
            assert(live_entries(kept@) =~= Seq::<LiveEntry>::empty());
        }
        while i < self.live.len()
            invariant
                i <= self.live.len(),
                id@ == op_id@,
                old_live == live_entries(self.live@),
                keep == (|e: LiveEntry| e.0 != op_id@),
                live_entries(kept@) == old_live.take(i as int).filter(keep),
            decreases self.live.len() - i,
        {
            let ghost before = live_entries(kept@);
            let entry = &self.live[i];
            if !same_id(&entry.op_id, &id) {
                kept.push(
                    LiveOp { op_id: entry.op_id.clone(), kind: entry.kind.clone(), flag: entry.flag },
                );
                assert(live_entries(kept@) =~= before.push((entry.op_id@, entry.flag, entry.kind@)));
            }
            proof {
                reveal(Seq::filter);
                let tk = old_live.take(i + 1);
                assert(tk.drop_last() =~= old_live.take(i as int));
                assert(tk.last() == old_live[i as int]);
            }
            i = i + 1;
        }
        assert(old_live.take(i as int) =~= old_live);
        self.live = kept;
        proof {
            lemma_filter_keeps_wf(old_live, keep, self@.flags.len());
        }
    }

    /// Asks the live operation `op_id` to stop.
    pub fn cancel(&mut self, op_id: &str) -> (r: CancelOutcome)
        requires
            registry_wf(old(self)@),
        ensures
            r == spec_cancel_outcome(old(self)@, op_id@),
            final(self)@.flags == spec_cancel_flags(old(self)@, op_id@),
            final(self)@.live == old(self)@.live,
            final(self)@.counter == old(self)@.counter,
            registry_wf(final(self)@),
    {
        let mut id = String::new();
        push_str(&mut id, op_id);
        let k = self.find(&id);
        proof {
            lemma_op_index(self@.live, op_id@, 0);
        }
        if k >= self.live.len() {
            return CancelOutcome::NotFound;
        }
        let flag = self.live[k].flag;
        if self.flags[flag] {
            CancelOutcome::AlreadyCancelled
        } else {
            self.flags.set(flag, true);
            CancelOutcome::Cancelled
        }
    }

    /// The live operation ids, in ascending order.
    pub fn live(&self) -> (ids: Vec<String>)
        requires
            registry_wf(self@),
        ensures
            ids@.len() == self@.live.len(),
            forall|i: int, j: int| 0 <= i < j < ids@.len() ==> seq_lt(ids@[i]@, ids@[j]@),
            forall|id: Seq<char>| #[trigger] is_live(self@, id) <==> listed(ids@, id),
    {
        let mut out: Vec<String> = Vec::new();
        let mut k: usize = 0;
        while k < self.live.len()
            invariant
                k <= self.live.len(),
                registry_wf(self@),
                out@.len() == k,
                forall|i: int, j: int| 0 <= i < j < out@.len() ==> seq_lt(out@[i]@, out@[j]@),
                forall|id: Seq<char>| #[trigger] live_before(self@.live, k as int, id) <==> listed(out@, id),
            decreases self.live.len() - k,
        {
            let id = self.live[k].op_id.clone();
            let mut p: usize = 0;
            while p < out.len() && compare_ids(&out[p], &id) < 0
                invariant
                    p <= out.len(),
                    forall|i: int| 0 <= i < p ==> seq_lt(out@[i]@, id@),
                decreases out.len() - p,
            {
                p = p + 1;
            }
            proof {
                assert forall|i: int| 0 <= i < out@.len() implies out@[i]@ != id@ by {
                    let w = i;
                    assert(self@.live[k as int].0 == id@);
                    if out@[i]@ == id@ {
                        assert(listed(out@, id@));
                        assert(live_before(self@.live, k as int, id@));
                        let j = choose|j: int| 0 <= j < k && #[trigger] self@.live[j].0 == id@;
                        assert(self@.live[j].0 != self@.live[k as int].0);
                    }
                }
                if p < out@.len() {
                    lemma_seq_lt_total(out@[p as int]@, id@);
                    assert forall|j: int| p <= j < out@.len() implies seq_lt(id@, out@[j]@) by {
                        if j > p {
                            lemma_seq_lt_transitive(id@, out@[p as int]@, out@[j]@);
                        }
                    }
                }
            }
            let ghost old_out = out@;
            out.insert(p, id);
            proof {
                assert forall|i: int, j: int| 0 <= i < j < out@.len() implies seq_lt(
                    out@[i]@,
                    out@[j]@,
                ) by {
                    if j < p {
                        assert(out@[i] == old_out[i] && out@[j] == old_out[j]);
                    } else if j == p {
                        assert(out@[i] == old_out[i]);
                    } else if i < p {
                        assert(out@[i] == old_out[i] && out@[j] == old_out[j - 1]);
                        if j - 1 >= p {
                            lemma_seq_lt_transitive(out@[i]@, id@, out@[j]@);
                        }
                    } else if i == p {
                        assert(out@[j] == old_out[j - 1]);
                    } else {
                        assert(out@[i] == old_out[i - 1] && out@[j] == old_out[j - 1]);
                    }
                }
                assert forall|x: Seq<char>| #[trigger] live_before(self@.live, k + 1, x) <==> listed(
                    out@,
                    x,
                ) by {
                    assert(live_before(self@.live, k as int, x) == listed(old_out, x));
                    if exists|i: int| 0 <= i < k + 1 && #[trigger] self@.live[i].0 == x {
                        let i = choose|i: int| 0 <= i < k + 1 && #[trigger] self@.live[i].0 == x;
                        if i == k {
                            assert(out@[p as int]@ == x);
                        } else {
                            let t = choose|t: int| 0 <= t < old_out.len() && #[trigger] old_out[t]@
                                == x;
                            if t < p {
                                assert(out@[t]@ == x);
                            } else {
                                assert(out@[t + 1]@ == x);
                            }
                        }
                    }
                    if exists|i: int| 0 <= i < out@.len() && #[trigger] out@[i]@ == x {
                        let i = choose|i: int| 0 <= i < out@.len() && #[trigger] out@[i]@ == x;
                        if i == p {
                            assert(self@.live[k as int].0 == x);
                        } else if i < p {
                            assert(old_out[i]@ == x);
                        } else {
                            assert(old_out[i - 1]@ == x);
                        }
                    }
                }
            }
            k = k + 1;
        }
        proof {
            assert forall|id: Seq<char>| #[trigger] is_live(self@, id) <==> listed(out@, id) by {
                assert(live_before(self@.live, k as int, id) == listed(out@, id));
                lemma_op_index(self@.live, id, 0);
                if is_live(self@, id) {
                    let t = op_index(self@.live, id, 0);
                    assert(self@.live[t].0 == id);
                }
                if exists|i: int| 0 <= i < k && #[trigger] self@.live[i].0 == id {
                    let i = choose|i: int| 0 <= i < k && #[trigger] self@.live[i].0 == id;
                    assert(op_index(self@.live, id, 0) <= i);
                }
            }
        }
        out
    }
}

/// `x` is the id of one of the first `k` live entries.
pub open spec fn live_before(live: Seq<LiveEntry>, k: int, x: Seq<char>) -> bool {
    exists|i: int| 0 <= i < k && #[trigger] live[i].0 == x
}

/// `x` is one of the strings.
pub open spec fn listed(s: Seq<String>, x: Seq<char>) -> bool {
    exists|i: int| 0 <= i < s.len() && #[trigger] s[i]@ == x
}

proof fn lemma_filter_keeps_wf(live: Seq<LiveEntry>, keep: spec_fn(LiveEntry) -> bool, n: nat)
    requires
        forall|i: int, j: int|
            0 <= i < j < live.len() ==> #[trigger] live[i].0 != #[trigger] live[j].0,
        forall|i: int| 0 <= i < live.len() ==> #[trigger] live[i].1 < n,
    ensures
        forall|i: int, j: int|
            0 <= i < j < live.filter(keep).len() ==> #[trigger] live.filter(keep)[i].0
                != #[trigger] live.filter(keep)[j].0,
        forall|i: int| 0 <= i < live.filter(keep).len() ==> #[trigger] live.filter(keep)[i].1 < n,
        forall|i: int|
            0 <= i < live.filter(keep).len() ==> exists|t: int|
                0 <= t < live.len() && #[trigger] live[t] == #[trigger] live.filter(keep)[i],
    decreases live.len(),
{
    reveal(Seq::filter);
    if live.len() > 0 {
        let init = live.drop_last();
        assert forall|i: int, j: int| 0 <= i < j < init.len() implies #[trigger] init[i].0
            != #[trigger] init[j].0 by {
            assert(init[i] == live[i] && init[j] == live[j]);
        }
        assert forall|i: int| 0 <= i < init.len() implies #[trigger] init[i].1 < n by {
            assert(init[i] == live[i]);
        }
        lemma_filter_keeps_wf(init, keep, n);
        let f = init.filter(keep);
        assert forall|i: int| 0 <= i < f.len() implies exists|t: int|
            0 <= t < live.len() - 1 && #[trigger] live[t] == #[trigger] f[i] by {
            let t = choose|t: int| 0 <= t < init.len() && #[trigger] init[t] == #[trigger] f[i];
            assert(init[t] == live[t]);
        }
        if keep(live.last()) {
            assert forall|i: int| 0 <= i < f.len() implies #[trigger] f[i].0 != live.last().0 by {
                let t = choose|t: int| 0 <= t < live.len() - 1 && #[trigger] live[t] == #[trigger] f[i];
                assert(live[t].0 != live[live.len() - 1].0);
            }
            let g = f.push(live.last());
            assert forall|i: int| 0 <= i < g.len() implies exists|t: int|
                0 <= t < live.len() && #[trigger] live[t] == #[trigger] g[i] by {
                if i < f.len() {
                    let t = choose|t: int| 0 <= t < live.len() - 1 && #[trigger] live[t] == #[trigger] f[i];
                    assert(g[i] == f[i]);
                } else {
                    assert(live[live.len() - 1] == g[i]);
                }
            }
        } else {
            assert forall|i: int| 0 <= i < f.len() implies exists|t: int|
                0 <= t < live.len() && #[trigger] live[t] == #[trigger] f[i] by {
                let t = choose|t: int| 0 <= t < live.len() - 1 && #[trigger] live[t] == #[trigger] f[i];
            }
        }
    }
}

/// A cancel reaches a live operation once: the second cancel of the same
/// id reports `AlreadyCancelled`, and cancelling changes nothing else.
pub proof fn law_cancel_is_once(r: RegistryView, id: Seq<char>)
    requires
        registry_wf(r),
        is_live(r, id),
    ensures
        spec_cancel_outcome(r, id) != CancelOutcome::NotFound,
        spec_cancel_outcome(
            RegistryView { flags: spec_cancel_flags(r, id), ..r },
            id,
        ) == CancelOutcome::AlreadyCancelled,
{
    lemma_op_index(r.live, id, 0);
}

/// Once an operation is finished, cancelling it reports `NotFound`, and an
/// id that was never registered is not found either.
pub proof fn law_finished_is_not_found(r: RegistryView, id: Seq<char>)
    requires
        registry_wf(r),
    ensures
        spec_cancel_outcome(
            RegistryView { live: r.live.filter(|e: LiveEntry| e.0 != id), ..r },
            id,
        ) == CancelOutcome::NotFound,
        !is_live(r, id) ==> spec_cancel_outcome(r, id) == CancelOutcome::NotFound,
{
    let f = r.live.filter(|e: LiveEntry| e.0 != id);
    lemma_op_index(f, id, 0);
    if op_index(f, id, 0) < f.len() {
        f.lemma_filter_pred(|e: LiveEntry| e.0 != id, op_index(f, id, 0));
    }
}

// -------------------------------------------------------------- replies ---

/// Items joined with `sep`.
pub open spec fn joined(items: Seq<Seq<char>>, sep: Seq<char>) -> Seq<char>
    decreases items.len(),
{
    if items.len() == 0 {
        Seq::empty()
    } else if items.len() == 1 {
        items[0]
    } else {
        joined(items.drop_last(), sep) + sep + items.last()
    }
}

/// Joins strings with a separator (see [`joined`]).
pub fn join_strings(items: &Vec<String>, sep: &str) -> (r: String)
    ensures
        r@ == joined(texts(items@), sep@),
{
    let ghost tv = texts(items@);
    let mut r = String::new();
    let mut i: usize = 0;
    while i < items.len()
        invariant
            i <= items.len(),
            tv == texts(items@),
            r@ == joined(tv.take(i as int), sep@),
        decreases items.len() - i,
    {
        if i > 0 {
            push_str(&mut r, sep);
        }
        push_str(&mut r, items[i].as_str());
        assert(tv.take(i + 1).drop_last() =~= tv.take(i as int));
        assert(tv.take(i + 1).last() == items@[i as int]@);
        if i == 0 {
            assert(tv.take(1).len() == 1);
            assert(tv.take(0).len() == 0);
        }
        assert(r@ =~= joined(tv.take(i + 1), sep@));
        i = i + 1;
    }
    assert(tv.take(i as int) =~= tv);
    r
}

/// The live operations as a cancel failure shows them: `none`, or the ids
/// joined with `, `.
pub open spec fn spec_describe_live(live: Seq<Seq<char>>) -> Seq<char> {
    if live.len() == 0 {
        "none"@
    } else {
        joined(live, ", "@)
    }
}

/// Renders the live operations (see [`spec_describe_live`]).
pub fn describe_live(live: &Vec<String>) -> (r: String)
    ensures
        r@ == spec_describe_live(texts(live@)),
{
    if live.len() == 0 {
        let mut r = String::new();
        push_str(&mut r, "none");
        r
    } else {
        join_strings(live, ", ")
    }
}

/// The answer to `op:cancel`: success when a live operation was asked to
/// stop; `E_CANCELLED` when it already had been, `E_NOT_FOUND` when nothing
/// live has that id, both listing the live operations.
pub fn cancel_reply(outcome: CancelOutcome, op_id: &str, live: &Vec<String>) -> (r: Result<(), IpcFailure>)
    ensures
        outcome == CancelOutcome::Cancelled ==> r is Ok,
        outcome == CancelOutcome::AlreadyCancelled ==> (r matches Err(f) && f.code
            == ErrorCode::Cancelled && f.message@ == op_id@ + " was already cancelled"@ && f.detail@
            == "live operations: "@ + spec_describe_live(texts(live@))),
        outcome == CancelOutcome::NotFound ==> (r matches Err(f) && f.code == ErrorCode::NotFound
            && f.message@ == "no live operation named "@ + op_id@ && f.detail@
            == "live operations: "@ + spec_describe_live(texts(live@))),
{
    let mut detail = String::new();
    push_str(&mut detail, "live operations: ");
    let described = describe_live(live);
    push_str(&mut detail, described.as_str());
    match outcome {
        CancelOutcome::Cancelled => Ok(()),
        CancelOutcome::AlreadyCancelled => {
            let mut message = String::new();
            push_str(&mut message, op_id);
            push_str(&mut message, " was already cancelled");
            Err(IpcFailure::new(ErrorCode::Cancelled, message, detail))
        },
        CancelOutcome::NotFound => {
            let mut message = String::new();
            push_str(&mut message, "no live operation named ");
            push_str(&mut message, op_id);
            Err(IpcFailure::new(ErrorCode::NotFound, message, detail))
        },
    }
}

/// The answer to `run:stop`: success when the run was asked to stop;
/// `E_CANCELLED` (no detail) when it already had been; `E_NOT_FOUND` listing
/// the live operations when no run has that id.
pub fn stop_reply(outcome: CancelOutcome, op_id: &str, live: &Vec<String>) -> (r: Result<(), IpcFailure>)
    ensures
        outcome == CancelOutcome::Cancelled ==> r is Ok,
        outcome == CancelOutcome::AlreadyCancelled ==> (r matches Err(f) && f.code
            == ErrorCode::Cancelled && f.message@ == op_id@ + " was already stopped"@ && f.detail@.len()
            == 0),
        outcome == CancelOutcome::NotFound ==> (r matches Err(f) && f.code == ErrorCode::NotFound
            && f.message@ == "no live run operation named "@ + op_id@ && f.detail@
            == "live operations: "@ + joined(texts(live@), ", "@)),
{
    match outcome {
        CancelOutcome::Cancelled => Ok(()),
        CancelOutcome::AlreadyCancelled => {
            let mut message = String::new();
            push_str(&mut message, op_id);
            push_str(&mut message, " was already stopped");
            Err(IpcFailure::new(ErrorCode::Cancelled, message, String::new()))
        },
        CancelOutcome::NotFound => {
            let mut message = String::new();
            push_str(&mut message, "no live run operation named ");
            push_str(&mut message, op_id);
            let mut detail = String::new();
            push_str(&mut detail, "live operations: ");
            let list = join_strings(live, ", ");
            push_str(&mut detail, list.as_str());
            Err(IpcFailure::new(ErrorCode::NotFound, message, detail))
        },
    }
}

/// The answer to `build:cancel`: success when the build was asked to stop;
/// `E_CANCELLED` (no detail) when it already had been; `E_NOT_FOUND` listing
/// the live operations when no build has that id.
pub fn build_cancel_reply(outcome: CancelOutcome, op_id: &str, live: &Vec<String>) -> (r: Result<
    (),
    IpcFailure,
>)
    ensures
        outcome == CancelOutcome::Cancelled ==> r is Ok,
        outcome == CancelOutcome::AlreadyCancelled ==> (r matches Err(f) && f.code
            == ErrorCode::Cancelled && f.message@ == op_id@ + " was already cancelled"@
            && f.detail@.len() == 0),
        outcome == CancelOutcome::NotFound ==> (r matches Err(f) && f.code == ErrorCode::NotFound
            && f.message@ == "no live build operation named "@ + op_id@ && f.detail@
            == "live operations: "@ + joined(texts(live@), ", "@)),
{
    match outcome {
        CancelOutcome::Cancelled => Ok(()),
        CancelOutcome::AlreadyCancelled => {
            let mut message = String::new();
            push_str(&mut message, op_id);
            push_str(&mut message, " was already cancelled");
            Err(IpcFailure::new(ErrorCode::Cancelled, message, String::new()))
        },
        CancelOutcome::NotFound => {
            let mut message = String::new();
            push_str(&mut message, "no live build operation named ");
            push_str(&mut message, op_id);
            let mut detail = String::new();
            push_str(&mut detail, "live operations: ");
            let list = join_strings(live, ", ");
            push_str(&mut detail, list.as_str());
            Err(IpcFailure::new(ErrorCode::NotFound, message, detail))
        },
    }
}

/// The value of a lower-case hexadecimal digit.
pub open spec fn digit_value(c: char) -> nat {
    if (c as nat) < ('a' as nat) {
        ((c as nat) - ('0' as nat)) as nat
    } else {
        ((c as nat) - ('a' as nat) + 10) as nat
    }
}

/// The value of a string of lower-case hexadecimal digits.
pub open spec fn hex_value(s: Seq<char>) -> nat
    decreases s.len(),
{
    if s.len() == 0 {
        0
    } else {
        16 * hex_value(s.drop_last()) + digit_value(s.last())
    }
}

proof fn lemma_hex_value_of_hex(n: nat)
    ensures
        hex_value(spec_hex(n)) == n,
    decreases n,
{
    let d = n % 16;
    assert(digit_value(hex_digit(d)) == d);
    if n >= 16 {
        lemma_hex_value_of_hex(n / 16);
        assert(spec_hex(n).drop_last() =~= spec_hex(n / 16));
        assert(spec_hex(n).last() == hex_digit(d));
        assert(n == 16 * (n / 16) + d);
        assert(spec_hex(n).len() > 0);
        assert(hex_value(spec_hex(n)) == 16 * hex_value(spec_hex(n).drop_last()) + digit_value(
            spec_hex(n).last(),
        ));
    } else {
        assert(spec_hex(n).drop_last() =~= Seq::<char>::empty());
        assert(spec_hex(n).last() == hex_digit(n));
        assert(d == n);
        assert(hex_value(spec_hex(n)) == 16 * hex_value(spec_hex(n).drop_last()) + digit_value(
            spec_hex(n).last(),
        ));
    }
}

proof fn lemma_zeros_value(k: nat)
    ensures
        hex_value(repeat_char('0', k)) == 0,
    decreases k,
{
    if k > 0 {
        assert(repeat_char('0', k).drop_last() =~= repeat_char('0', (k - 1) as nat));
        lemma_zeros_value((k - 1) as nat);
    }
}

proof fn lemma_leading_zeros(k: nat, s: Seq<char>)
    ensures
        hex_value(repeat_char('0', k) + s) == hex_value(s),
    decreases s.len(),
{
    if s.len() == 0 {
        assert(repeat_char('0', k) + s =~= repeat_char('0', k));
        lemma_zeros_value(k);
    } else {
        assert((repeat_char('0', k) + s).drop_last() =~= repeat_char('0', k) + s.drop_last());
        lemma_leading_zeros(k, s.drop_last());
    }
}

/// Distinct registration numbers mint distinct ids.
pub proof fn lemma_minted_ids_differ(a: nat, b: nat)
    requires
        a != b,
    ensures
        minted_id(a) != minted_id(b),
{
    lemma_hex_value_of_hex(a);
    lemma_hex_value_of_hex(b);
    let pa = spec_hex_padded(a, 4);
    let pb = spec_hex_padded(b, 4);
    if spec_hex(a).len() < 4 {
        lemma_leading_zeros((4 - spec_hex(a).len()) as nat, spec_hex(a));
    }
    if spec_hex(b).len() < 4 {
        lemma_leading_zeros((4 - spec_hex(b).len()) as nat, spec_hex(b));
    }
    assert(hex_value(pa) == a);
    assert(hex_value(pb) == b);
    reveal_strlit("op-");
    if minted_id(a) == minted_id(b) {
        assert(minted_id(a).skip(3) =~= pa);
        assert(minted_id(b).skip(3) =~= pb);
    }
}

/// The registry after `register(kinds[0])`, ..., `register(kinds[k-1])`,
/// as `register`'s contract states each step.
pub open spec fn after_registrations(r: RegistryView, kinds: Seq<Seq<char>>) -> RegistryView
    decreases kinds.len(),
{
    if kinds.len() == 0 {
        r
    } else {
        let p = after_registrations(r, kinds.drop_last());
        let id = minted_id((p.counter + 1) as nat);
        RegistryView {
            counter: (p.counter + 1) as u64,
            flags: p.flags.push(false),
            live: spec_put(p.live, id, p.flags.len() as usize, kinds.last()),
        }
    }
}

/// Successive registrations on a fresh registry are live in order under
/// `op-0001`, `op-0002`, ..., each with its kind and its own, unset, flag;
/// nothing else is live.
pub proof fn law_registrations_are_numbered_in_order(kinds: Seq<Seq<char>>)
    requires
        kinds.len() < u64::MAX,
        kinds.len() < usize::MAX,
    ensures
        ({
            let fresh = RegistryView { live: Seq::empty(), flags: Seq::empty(), counter: 0 };
            let r = after_registrations(fresh, kinds);
            &&& r.counter == kinds.len()
            &&& r.flags == Seq::new(kinds.len(), |i: int| false)
            &&& r.live == Seq::new(
                kinds.len(),
                |i: int| (minted_id((i + 1) as nat), i as usize, kinds[i]),
            )
            &&& forall|id: Seq<char>| #[trigger] is_live(r, id) <==> exists|i: int|
                0 <= i < kinds.len() && id == #[trigger] minted_id((i + 1) as nat)
        }),
    decreases kinds.len(),
{
    let fresh = RegistryView { live: Seq::empty(), flags: Seq::empty(), counter: 0 };
    let r = after_registrations(fresh, kinds);
    let k = kinds.len() as int;
    let want = Seq::new(kinds.len(), |i: int| (minted_id((i + 1) as nat), i as usize, kinds[i]));
    if k > 0 {
        law_registrations_are_numbered_in_order(kinds.drop_last());
        let p = after_registrations(fresh, kinds.drop_last());
        let id = minted_id(k as nat);
        assert forall|j: int| 0 <= j < p.live.len() implies p.live[j].0 != id by {
            lemma_minted_ids_differ((j + 1) as nat, k as nat);
        }
        lemma_op_index(p.live, id, 0);
        assert(op_index(p.live, id, 0) == p.live.len());
        assert(r.live =~= want);
        assert(r.flags =~= Seq::new(kinds.len(), |i: int| false));
    } else {
        assert(r.live =~= want);
        assert(r.flags =~= Seq::new(kinds.len(), |i: int| false));
    }
    assert forall|id: Seq<char>| #[trigger] is_live(r, id) <==> exists|i: int|
        0 <= i < kinds.len() && id == #[trigger] minted_id((i + 1) as nat) by {
        lemma_op_index(r.live, id, 0);
        if exists|i: int| 0 <= i < kinds.len() && id == #[trigger] minted_id((i + 1) as nat) {
            let i = choose|i: int| 0 <= i < kinds.len() && id == #[trigger] minted_id((i + 1) as nat);
            assert(r.live[i].0 == id);
            lemma_op_index_finds(r.live, id, 0, i);
        }
    }
}

proof fn lemma_op_index_finds(live: Seq<LiveEntry>, id: Seq<char>, i: int, j: int)
    requires
        0 <= i <= j < live.len(),
        live[j].0 == id,
    ensures
        op_index(live, id, i) <= j,
    decreases j - i,
{
    if live[i].0 != id {
        lemma_op_index_finds(live, id, i + 1, j);
    }
}

} // verus!
