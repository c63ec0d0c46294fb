//! The shared credential pool: availability-gated FIFO dispensing and the
//! penalty bookkeeping around it.
//!
//! Selection policy: **FIFO by oldest claim**. Among the credentials that are
//! available at the given time and match the vendor filter, the one with the
//! smallest claim timestamp is dispensed (never-claimed credentials come
//! first); on a tie the one earliest in the pool wins. This is the
//! deterministic, fair policy; it trades the anti-thundering-herd spread of
//! random selection for reproducibility.

use vstd::prelude::*;
use crate::token::Token;

verus! {

/// True when a credential of vendor `kind` passes the filter `f`: no filter,
/// an empty filter list (treated as unfiltered), or a list naming `kind`.
pub open spec fn kind_allowed(kind: Seq<char>, f: Option<Seq<Seq<char>>>) -> bool {
    match f {
        None => true,
        Some(l) => l.len() == 0 || l.contains(kind),
    }
}

/// The filter argument of the executable methods, seen as the mathematical
/// value the specifications speak of.
pub open spec fn filter_view(llms: Option<&Vec<String>>) -> Option<Seq<Seq<char>>> {
    match llms {
        None => None,
        Some(l) => Some(l.deep_view()),
    }
}

/// Well-formedness of a pool: every credential is well formed and no two
/// share an id.
pub open spec fn seq_wf(s: Seq<Token>) -> bool {
    &&& forall|i: int| 0 <= i < s.len() ==> (#[trigger] s[i]).wf()
    &&& forall|i: int, j: int| 0 <= i < j < s.len() ==> s[i].id != s[j].id
}

/// Some credential in `s` carries the id.
pub open spec fn has_id(s: Seq<Token>, id: i64) -> bool {
    exists|i: int| 0 <= i < s.len() && (#[trigger] s[i]).id == id
}

/// Position `i` holds a credential that could be dispensed at `now` under
/// filter `f`.
pub open spec fn candidate(s: Seq<Token>, now: i64, f: Option<Seq<Seq<char>>>, i: int) -> bool {
    &&& 0 <= i < s.len()
    &&& s[i].spec_is_available(now)
    &&& kind_allowed(s[i].token_type@, f)
}

/// The position the FIFO policy selects: among the candidates, the first one
/// with the smallest claim key; `None` when there is no candidate.
pub open spec fn spec_select(s: Seq<Token>, now: i64, f: Option<Seq<Seq<char>>>) -> Option<int>
    decreases s.len(),
{
    if s.len() == 0 {
        None
    } else {
        let prev = spec_select(s.drop_last(), now, f);
        let last = s.len() - 1;
        if candidate(s, now, f, last) {
            match prev {
                None => Some(last),
                Some(i) => if s[last].claim_key() < s[i].claim_key() {
                    Some(last)
                } else {
                    Some(i)
                },
            }
        } else {
            prev
        }
    }
}

/// What an acquisition at `now` under `f` hands back: the selected
/// credential, already stamped with its new claim time.
pub open spec fn acquire_result(pre: Seq<Token>, now: i64, f: Option<Seq<Seq<char>>>) -> Option<
    Token,
> {
    match spec_select(pre, now, f) {
        None => None,
        Some(i) => Some(pre[i].claimed(now)),
    }
}

/// The pool after an acquisition at `now` under `f`: unchanged when nothing
/// was selected, else with the selected credential claimed.
pub open spec fn acquire_post(pre: Seq<Token>, now: i64, f: Option<Seq<Seq<char>>>) -> Seq<
    Token,
> {
    match spec_select(pre, now, f) {
        None => pre,
        Some(i) => pre.update(i, pre[i].claimed(now)),
    }
}

/// The pool after the credential with `id` (if any) is penalized.
pub open spec fn spec_mark(s: Seq<Token>, id: i64) -> Seq<Token> {
    Seq::new(s.len(), |i: int| if s[i].id == id { s[i].marked() } else { s[i] })
}

/// The pool after the credential with `id` (if any) is rehabilitated.
pub open spec fn spec_clear(s: Seq<Token>, id: i64) -> Seq<Token> {
    Seq::new(s.len(), |i: int| if s[i].id == id { s[i].cleared() } else { s[i] })
}

/// The durable pool of credentials; the only shared mutable state of the
/// engine. Each mutating method is one self-contained, atomic operation
/// against the pool, so concurrent coordinators interleave at the level of
/// whole operations.
pub struct TokenStore {
    tokens: Vec<Token>,
}

impl View for TokenStore {
    type V = Seq<Token>;

    closed spec fn view(&self) -> Seq<Token> {
        self.tokens@
    }
}

/// True when `kind` passes the runtime filter; mirrors [`kind_allowed`].
fn kind_ok(kind: &String, llms: Option<&Vec<String>>) -> (r: bool)
    ensures
        r == kind_allowed(kind@, filter_view(llms)),
{
    match llms {
        None => true,
        Some(l) => {
            if l.len() == 0 {
                true
            } else {
                let mut i: usize = 0;
                let mut found = false;
                while i < l.len()
                    invariant
                        0 <= i <= l.len(),
                        found == exists|k: int|
                            0 <= k < i && (#[trigger] l.deep_view()[k]) == kind@,
                    decreases l.len() - i,
                {
                    if l[i] == *kind {
                        assert(l.deep_view()[i as int] == kind@);
                        found = true;
                    }
                    i += 1;
                }
                assert(found == l.deep_view().contains(kind@));
                found
            }
        },
    }
}

impl TokenStore {
    /// See [`seq_wf`].
    pub open spec fn wf(self) -> bool {
        seq_wf(self@)
    }

    /// An empty pool.
    pub fn new() -> (r: TokenStore)
        ensures
            r@ == Seq::<Token>::empty(),
            r.wf(),
    {
        TokenStore { tokens: Vec::new() }
    }

    /// How many credentials the pool holds.
    pub fn len(&self) -> (n: usize)
        ensures
            n == self@.len(),
    {
        self.tokens.len()
    }

    /// The credential at position `i` of the pool.
    pub fn get(&self, i: usize) -> (t: &Token)
        requires
            i < self@.len(),
        ensures
            *t == self@[i as int],
    {
        &self.tokens[i]
    }

    /// Provisions a credential. Refused (returning `false`, pool unchanged)
    /// when the credential is malformed or its id is already taken.
    pub fn add_token(&mut self, t: Token) -> (r: bool)
        requires
            old(self).wf(),
        ensures
            final(self).wf(),
            r == (t.wf() && !has_id(old(self)@, t.id)),
            r ==> final(self)@ == old(self)@.push(t),
            !r ==> *final(self) == *old(self),
    {
        if t.delay_by_second < 0 {
            return false;
        }
        let mut i: usize = 0;
        while i < self.tokens.len()
            invariant
                *self == *old(self),
                self.wf(),
                0 <= i <= self.tokens.len(),
                forall|k: int| 0 <= k < i ==> (#[trigger] self.tokens@[k]).id != t.id,
            decreases self.tokens.len() - i,
        {
            if self.tokens[i].id == t.id {
                assert(has_id(self@, t.id)) by {
                    assert(self@[i as int].id == t.id);
                }
                return false;
            }
            i += 1;
        }
        assert(!has_id(self@, t.id));
        self.tokens.push(t);
        proof {
            lemma_wf_after_push(old(self)@, t);
        }
        true
    }

    /// Atomically selects and claims one available credential, FIFO by
    /// oldest claim: `acquire` of the engine. Returns `None` when no
    /// credential is available under the filter at `now`; the pool is then
    /// untouched. The returned credential already carries
    /// `triggered_on == Some(now)`, and the pool records the claim.
    pub fn get_next_token_by_llms(&mut self, now: i64, llms: Option<&Vec<String>>) -> (r: Option<
        Token,
    >)
        requires
            old(self).wf(),
        ensures
            final(self).wf(),
            r == acquire_result(old(self)@, now, filter_view(llms)),
            final(self)@ == acquire_post(old(self)@, now, filter_view(llms)),
            final(self)@.len() == old(self)@.len(),
    {
        let ghost f = filter_view(llms);
        let mut best: Option<usize> = None;
        let mut i: usize = 0;
        while i < self.tokens.len()
            invariant
                self.wf(),
                f == filter_view(llms),
                0 <= i <= self.tokens.len(),
                best is None ==> forall|k: int| 0 <= k < i ==> !candidate(self@, now, f, k),
                best matches Some(b) ==> {
                    &&& candidate(self@, now, f, b as int)
                    &&& b < i
                    &&& forall|k: int|
                        0 <= k < i && candidate(self@, now, f, k) ==> self@[b as int].claim_key()
                            <= self@[k].claim_key()
                    &&& forall|k: int|
                        0 <= k < b as int && candidate(self@, now, f, k) ==> self@[
                            b as int
                        ].claim_key() < self@[k].claim_key()
                },
            decreases self.tokens.len() - i,
        {
            let avail = self.tokens[i].is_available(now);
            let allowed = kind_ok(&self.tokens[i].token_type, llms);
            if avail && allowed {
                assert(candidate(self@, now, f, i as int));
                match best {
                    None => { best = Some(i) },
                    Some(b) => {
                        if self.tokens[i].claim_key_val() < self.tokens[b].claim_key_val() {
                            best = Some(i);
                        }
                    },
                }
            }
            i += 1;
        }
        match best {
            None => {
                proof {
                    lemma_select_characterizes(self@, now, f);
                    if spec_select(self@, now, f) is Some {
                        let w = spec_select(self@, now, f)->0;
                        assert(candidate(self@, now, f, w));
                    }
                }
                None
            },
            Some(b) => {
                proof {
                    lemma_select_first_min(self@, now, f, b as int);
                }
                let mut t = self.tokens[b].clone();
                t.triggered_on = Some(now);
                let out = t.clone();
                self.tokens[b] = t;
                assert(self@ =~= acquire_post(old(self)@, now, f));
                Some(out)
            },
        }
    }

    /// Point lookup by id: a copy of the credential, or `None` when the pool
    /// holds no such id.
    pub fn get_token_by_id(&self, id: i64) -> (r: Option<Token>)
        ensures
            (r is None) == !has_id(self@, id),
            r matches Some(t) ==> self@.contains(t) && t.id == id,
    {
        let mut i: usize = 0;
        while i < self.tokens.len()
            invariant
                0 <= i <= self.tokens.len(),
                forall|k: int| 0 <= k < i ==> (#[trigger] self.tokens@[k]).id != id,
            decreases self.tokens.len() - i,
        {
            if self.tokens[i].id == id {
                let t = self.tokens[i].clone();
                assert(self@.contains(t)) by { assert(self@[i as int] == t) }
                return Some(t);
            }
            i += 1;
        }
        None
    }

    /// Penalizes the credential with `id`: sets its trouble flag and grows
    /// its cooldown by the fixed penalty. Repeated calls keep accumulating
    /// cooldown on purpose: repeated failures push availability further out.
    /// A no-op when the pool holds no such id.
    pub fn mark_token_trouble(&mut self, id: i64)
        requires
            old(self).wf(),
        ensures
            final(self).wf(),
            final(self)@ == spec_mark(old(self)@, id),
    {
        let n = self.tokens.len();
        let mut i: usize = 0;
        while i < n
            invariant
                n == self.tokens.len(),
                seq_wf(old(self)@),
                0 <= i <= n,
                self@.len() == old(self)@.len(),
                forall|k: int| i <= k < n ==> self@[k] == old(self)@[k],
                forall|k: int| 0 <= k < i ==> self@[k] == spec_mark(old(self)@, id)[k],
            decreases n - i,
        {
            if self.tokens[i].id == id {
                let mut t = self.tokens[i].clone();
                t.trouble_delay = true;
                t.delay_by_second = add_penalty(t.delay_by_second);
                assert(t == old(self)@[i as int].marked());
                self.tokens[i] = t;
            }
            i += 1;
        }
        assert(self@ =~= spec_mark(old(self)@, id));
        proof {
            lemma_mark_preserves_wf(old(self)@, id);
        }
    }

    /// Rehabilitates the credential with `id`: only if it is currently
    /// troubled, drops the flag and takes the fixed penalty back out of its
    /// cooldown, floored at zero. A no-op when the credential is not
    /// troubled or the pool holds no such id.
    pub fn clear_token_trouble(&mut self, id: i64)
        requires
            old(self).wf(),
        ensures
            final(self).wf(),
            final(self)@ == spec_clear(old(self)@, id),
    {
        let n = self.tokens.len();
        let mut i: usize = 0;
        while i < n
            invariant
                n == self.tokens.len(),
                seq_wf(old(self)@),
                0 <= i <= n,
                self@.len() == old(self)@.len(),
                forall|k: int| i <= k < n ==> self@[k] == old(self)@[k],
                forall|k: int| 0 <= k < i ==> self@[k] == spec_clear(old(self)@, id)[k],
            decreases n - i,
        {
            if self.tokens[i].id == id && self.tokens[i].trouble_delay {
                let mut t = self.tokens[i].clone();
                t.trouble_delay = false;
                t.delay_by_second = sub_penalty(t.delay_by_second);
                assert(t == old(self)@[i as int].cleared());
                self.tokens[i] = t;
            } else {
                assert(self@[i as int] == spec_clear(old(self)@, id)[i as int]);
            }
            i += 1;
        }
        assert(self@ =~= spec_clear(old(self)@, id));
        proof {
            lemma_clear_preserves_wf(old(self)@, id);
        }
    }

    /// Whether the credential with `id` is currently under penalty; `false`
    /// when the pool holds no such id.
    pub fn is_token_in_trouble(&self, id: i64) -> (r: bool)
        ensures
            r == exists|i: int|
                0 <= i < self@.len() && (#[trigger] self@[i]).id == id && self@[i].trouble_delay,
    {
        let mut i: usize = 0;
        let mut found = false;
        while i < self.tokens.len()
            invariant
                0 <= i <= self.tokens.len(),
                found == exists|k: int|
                    0 <= k < i && (#[trigger] self.tokens@[k]).id == id
                        && self.tokens@[k].trouble_delay,
            decreases self.tokens.len() - i,
        {
            if self.tokens[i].id == id && self.tokens[i].trouble_delay {
                found = true;
            }
            i += 1;
        }
        found
    }
}

/// Cooldown growth under one penalty, saturating at `i64::MAX`.
fn add_penalty(delay: i64) -> (r: i64)
    requires
        delay >= 0,
    ensures
        r as int == if delay + crate::token::TROUBLE_PENALTY_SECONDS <= i64::MAX {
            delay + crate::token::TROUBLE_PENALTY_SECONDS
        } else {
            i64::MAX as int
        },
{
    if delay <= i64::MAX - crate::token::TROUBLE_PENALTY_SECONDS {
        delay + crate::token::TROUBLE_PENALTY_SECONDS
    } else {
        i64::MAX
    }
}

/// Cooldown shrink when a penalty is lifted, floored at zero.
fn sub_penalty(delay: i64) -> (r: i64)
    ensures
        r as int == if delay - crate::token::TROUBLE_PENALTY_SECONDS >= 0 {
            delay - crate::token::TROUBLE_PENALTY_SECONDS
        } else {
            0
        },
{
    if delay >= crate::token::TROUBLE_PENALTY_SECONDS {
        delay - crate::token::TROUBLE_PENALTY_SECONDS
    } else {
        0
    }
}

proof fn lemma_wf_after_push(s: Seq<Token>, t: Token)
    requires
        seq_wf(s),
        t.wf(),
        !has_id(s, t.id),
    ensures
        seq_wf(s.push(t)),
{
    let p = s.push(t);
    assert forall|i: int, j: int| 0 <= i < j < p.len() implies p[i].id != p[j].id by {
        if j == p.len() - 1 {
            assert(p[i] == s[i]);
            if s[i].id == t.id {
                assert(has_id(s, t.id));
            }
        }
    }
}

proof fn lemma_mark_preserves_wf(s: Seq<Token>, id: i64)
    requires
        seq_wf(s),
    ensures
        seq_wf(spec_mark(s, id)),
{
    let m = spec_mark(s, id);
    assert forall|i: int| 0 <= i < m.len() implies (#[trigger] m[i]).wf() by {
        assert(s[i].wf());
    }
    assert forall|i: int, j: int| 0 <= i < j < m.len() implies m[i].id != m[j].id by {
        assert(m[i].id == s[i].id && m[j].id == s[j].id);
    }
}

proof fn lemma_clear_preserves_wf(s: Seq<Token>, id: i64)
    requires
        seq_wf(s),
    ensures
        seq_wf(spec_clear(s, id)),
{
    let m = spec_clear(s, id);
    assert forall|i: int| 0 <= i < m.len() implies (#[trigger] m[i]).wf() by {
        assert(s[i].wf());
    }
    assert forall|i: int, j: int| 0 <= i < j < m.len() implies m[i].id != m[j].id by {
        assert(m[i].id == s[i].id && m[j].id == s[j].id);
    }
}

/// What the FIFO selection returns, characterized without recursion: when it
/// selects a position, that position is a candidate with the smallest claim
/// key, and the earliest position among equal keys; when it selects nothing,
/// no candidate exists.
pub proof fn lemma_select_characterizes(s: Seq<Token>, now: i64, f: Option<Seq<Seq<char>>>)
    ensures
        spec_select(s, now, f) is None ==> forall|i: int| !candidate(s, now, f, i),
        spec_select(s, now, f) matches Some(i) ==> {
            &&& candidate(s, now, f, i)
            &&& forall|j: int|
                candidate(s, now, f, j) ==> s[i].claim_key() <= (#[trigger] s[j]).claim_key()
            &&& forall|j: int|
                0 <= j < i && candidate(s, now, f, j) ==> s[i].claim_key() < (
                #[trigger] s[j]).claim_key()
        },
    decreases s.len(),
{
    if s.len() > 0 {
        let pre = s.drop_last();
        lemma_select_characterizes(pre, now, f);
        assert(forall|j: int|
            0 <= j < pre.len() ==> (#[trigger] pre[j]) == s[j]);
        assert(forall|j: int|
            candidate(pre, now, f, j) == (0 <= j < s.len() - 1 && candidate(s, now, f, j)));
    }
}

/// The three conditions of [`lemma_select_characterizes`] pin the selected
/// position down uniquely.
pub proof fn lemma_select_first_min(s: Seq<Token>, now: i64, f: Option<Seq<Seq<char>>>, i: int)
    requires
        candidate(s, now, f, i),
        forall|j: int| candidate(s, now, f, j) ==> s[i].claim_key() <= (#[trigger] s[j]).claim_key(),
        forall|j: int|
            0 <= j < i && candidate(s, now, f, j) ==> s[i].claim_key() < (#[trigger] s[j]).claim_key(),
    ensures
        spec_select(s, now, f) == Some(i),
{
    lemma_select_characterizes(s, now, f);
    if spec_select(s, now, f) is None {
        assert(!candidate(s, now, f, i));
    } else {
        let k = spec_select(s, now, f)->0;
        if k < i {
            assert(s[i].claim_key() < s[k].claim_key());
            assert(s[k].claim_key() <= s[i].claim_key());
        } else if i < k {
            assert(s[k].claim_key() < s[i].claim_key());
            assert(s[i].claim_key() <= s[k].claim_key());
        }
    }
}

/// Availability invariant: `acquire` never dispenses a credential whose
/// availability predicate is false at call time, nor one outside the filter.
pub proof fn lemma_acquire_available(s: Seq<Token>, now: i64, f: Option<Seq<Seq<char>>>)
    ensures
        acquire_result(s, now, f) matches Some(t) ==> exists|i: int|
            {
                &&& #[trigger] candidate(s, now, f, i)
                &&& s[i].id == t.id
                &&& s[i].spec_is_available(now)
                &&& kind_allowed(s[i].token_type@, f)
                &&& t == s[i].claimed(now)
            },
{
    lemma_select_characterizes(s, now, f);
    if acquire_result(s, now, f) is Some {
        let i = spec_select(s, now, f)->0;
        assert(candidate(s, now, f, i));
    }
}

/// Filter respected: under a non-empty filter, `acquire` only dispenses a
/// credential of a listed vendor kind; when every credential of a listed
/// kind is unavailable, it dispenses nothing — even if credentials of other
/// kinds stand available.
pub proof fn lemma_filter_respected(s: Seq<Token>, now: i64, l: Seq<Seq<char>>)
    requires
        l.len() > 0,
    ensures
        acquire_result(s, now, Some(l)) matches Some(t) ==> l.contains(t.token_type@),
        (forall|i: int|
            0 <= i < s.len() && l.contains((#[trigger] s[i]).token_type@)
                ==> !s[i].spec_is_available(now)) ==> acquire_result(s, now, Some(l)) is None,
{
    lemma_select_characterizes(s, now, Some(l));
    if acquire_result(s, now, Some(l)) is Some {
        let i = spec_select(s, now, Some(l))->0;
        assert(candidate(s, now, Some(l), i));
        assert(s[i].claimed(now).token_type == s[i].token_type);
    }
}

/// Penalty round-trip at pool level: penalizing a credential and then
/// rehabilitating it restores every cooldown in the pool to its prior
/// value; the touched credential is left untroubled, everything else is
/// exactly as before. Holds as long as the touched credential's cooldown
/// has room for one more penalty.
pub proof fn lemma_store_penalty_round_trip(s: Seq<Token>, id: i64)
    requires
        seq_wf(s),
        forall|i: int|
            0 <= i < s.len() && (#[trigger] s[i]).id == id ==> s[i].delay_by_second <= i64::MAX
                - crate::token::TROUBLE_PENALTY_SECONDS,
    ensures
        spec_clear(spec_mark(s, id), id) == Seq::new(
            s.len(),
            |i: int|
                if s[i].id == id {
                    Token { trouble_delay: false, ..s[i] }
                } else {
                    s[i]
                },
        ),
{
    let done = spec_clear(spec_mark(s, id), id);
    assert forall|i: int| 0 <= i < s.len() implies done[i] == (if s[i].id == id {
        Token { trouble_delay: false, ..s[i] }
    } else {
        s[i]
    }) by {
        if s[i].id == id {
            crate::token::lemma_penalty_round_trip(s[i]);
        }
    }
    assert(done =~= Seq::new(
        s.len(),
        |i: int|
            if s[i].id == id {
                Token { trouble_delay: false, ..s[i] }
            } else {
                s[i]
            },
    ));
}

/// Idempotent clear at pool level: rehabilitating a credential that is not
/// troubled — or an id the pool does not hold — changes nothing.
pub proof fn lemma_store_idempotent_clear(s: Seq<Token>, id: i64)
    requires
        forall|i: int|
            0 <= i < s.len() && (#[trigger] s[i]).id == id ==> !s[i].trouble_delay,
    ensures
        spec_clear(s, id) == s,
{
    assert(spec_clear(s, id) =~= s);
}

/// No double dispense: once a credential with a positive cooldown has been
/// claimed, an immediately following acquisition in the same second — under
/// any filter — can only dispense a different credential. The pool
/// serializes claims (each is one atomic operation), so this covers
/// concurrent callers as well.
pub proof fn lemma_no_double_dispense(
    s: Seq<Token>,
    now: i64,
    f1: Option<Seq<Seq<char>>>,
    f2: Option<Seq<Seq<char>>>,
)
    requires
        seq_wf(s),
        acquire_result(s, now, f1) is Some,
        acquire_result(s, now, f1)->0.delay_by_second > 0,
    ensures
        acquire_result(acquire_post(s, now, f1), now, f2) matches Some(t2) ==> t2.id
            != acquire_result(s, now, f1)->0.id,
{
    let i = spec_select(s, now, f1)->0;
    lemma_select_characterizes(s, now, f1);
    assert(candidate(s, now, f1, i));
    let post = acquire_post(s, now, f1);
    lemma_select_characterizes(post, now, f2);
    if acquire_result(post, now, f2) is Some {
        let j = spec_select(post, now, f2)->0;
        assert(candidate(post, now, f2, j));
        if j == i {
            assert(post[i] == s[i].claimed(now));
            assert(!post[i].spec_is_available(now));
        } else {
            assert(post[j] == s[j]);
            assert(s[i].id != s[j].id);
        }
    }
}

} // verus!
