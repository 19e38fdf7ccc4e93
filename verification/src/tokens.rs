//! Bearer tokens issued at START, each mapped back to the flow and dataset
//! it was minted for, and revoked together with their flow at TERMINATE.
//! Enforcement itself lives with the public endpoint, which re-evaluates
//! the policy on every request a token authorizes.

use vstd::prelude::*;

verus! {

/// A lower-case hexadecimal digit.
pub open spec fn is_lower_hex(c: char) -> bool {
    ('0' <= c && c <= '9') || ('a' <= c && c <= 'f')
}

/// The hyphenated text of a version-4 UUID: 36 characters, hyphens at
/// positions 8, 13, 18 and 23, lower-case hex digits elsewhere, the version
/// digit `4` at position 14 and the variant digit (one of `8`, `9`, `a`,
/// `b`) at position 19.
pub open spec fn is_v4_uuid_text(s: Seq<char>) -> bool {
    &&& s.len() == 36
    &&& forall|i: int| #![trigger s[i]] 0 <= i < 36 ==> (if i == 8 || i == 13 || i == 18 || i == 23 {
        s[i] == '-'
    } else {
        is_lower_hex(s[i])
    })
    &&& s[14] == '4'
    &&& (s[19] == '8' || s[19] == '9' || s[19] == 'a' || s[19] == 'b')
}

/// A random version-4 UUID in its hyphenated text form, from the `uuid`
/// crate's `Uuid::new_v4` and its `Display`: `new_v4` masks in the version
/// and variant bits, and `Display` writes the hyphenated lower-case form.
/// Which UUID it is depends on chance, so only its shape is stated.
/// `new_v4` panics when the operating system's random source fails; no
/// input of this function decides that.
#[verifier::external_body]
fn fresh_token() -> (token: String)
    ensures
        is_v4_uuid_text(token@),
{
    uuid::Uuid::new_v4().to_string()
}

/// One issued access token's target: the flow and the dataset.
#[derive(Debug)]
pub struct TokenRecord {
    pub flow_id: String,
    pub dataset_id: String,
}

pub struct TokenRecordView {
    pub flow_id: Seq<char>,
    pub dataset_id: Seq<char>,
}

impl View for TokenRecord {
    type V = TokenRecordView;

    open spec fn view(&self) -> TokenRecordView {
        TokenRecordView { flow_id: self.flow_id@, dataset_id: self.dataset_id@ }
    }
}

impl TokenRecord {
    /// A copy of the record.
    pub fn duplicate(&self) -> (r: TokenRecord)
        ensures
            r@ == self@,
    {
        TokenRecord { flow_id: self.flow_id.clone(), dataset_id: self.dataset_id.clone() }
    }
}

/// In-memory bearer-token store: a map from token to record.
pub struct TokenStore {
    tokens: Vec<(String, TokenRecord)>,
}

/// The index of `token` among the entries, when it is there.
pub open spec fn has_key(s: Seq<(String, TokenRecord)>, token: Seq<char>, i: int) -> bool {
    0 <= i < s.len() && s[i].0@ == token
}

pub open spec fn keys_unique(s: Seq<(String, TokenRecord)>) -> bool {
    forall|i: int, j: int| 0 <= i < s.len() && 0 <= j < s.len() && i != j ==> s[i].0@ != s[j].0@
}

/// The map the entries stand for.
pub open spec fn entries_map(s: Seq<(String, TokenRecord)>) -> Map<Seq<char>, TokenRecordView> {
    Map::new(
        |k: Seq<char>| exists|i: int| has_key(s, k, i),
        |k: Seq<char>| s[choose|i: int| has_key(s, k, i)].1@,
    )
}

/// The entries held by store key `k` read `r` at index `i`.
proof fn lemma_entry(s: Seq<(String, TokenRecord)>, k: Seq<char>, i: int)
    requires
        keys_unique(s),
        has_key(s, k, i),
    ensures
        entries_map(s).contains_key(k),
        entries_map(s)[k] == s[i].1@,
{
    let j = choose|j: int| has_key(s, k, j);
    assert(has_key(s, k, j));
}

impl View for TokenStore {
    type V = Map<Seq<char>, TokenRecordView>;

    closed spec fn view(&self) -> Map<Seq<char>, TokenRecordView> {
        entries_map(self.tokens@)
    }
}

impl TokenStore {
    #[verifier::type_invariant]
    spec fn keys_distinct(&self) -> bool {
        keys_unique(self.tokens@)
    }

    /// An empty store.
    pub fn new() -> (s: TokenStore)
        ensures
            s@ == Map::<Seq<char>, TokenRecordView>::empty(),
    {
        let s = TokenStore { tokens: Vec::new() };
        assert(s@ =~= Map::<Seq<char>, TokenRecordView>::empty());
        s
    }

    /// The position of `token`, if the store holds it.
    fn find(&self, token: &str) -> (r: Option<usize>)
        ensures
            match r {
                Some(i) => has_key(self.tokens@, token@, i as int),
                None => forall|i: int| !has_key(self.tokens@, token@, i),
            },
    {
        let wanted = String::from_str(token);
        let mut i: usize = 0;
        while i < self.tokens.len()
            invariant
                i <= self.tokens@.len(),
                wanted@ == token@,
                forall|k: int| 0 <= k < i ==> !has_key(self.tokens@, token@, k),
            decreases self.tokens.len() - i,
        {
            if self.tokens[i].0 == wanted {
                return Some(i);
            }
            i = i + 1;
        }
        None
    }

    /// Mints a fresh token for `flow_id` and `dataset_id` and records it.
    /// The token is a random UUID; whatever it is, the store maps it to the
    /// new record and keeps every other token as it was.
    pub fn issue(&mut self, flow_id: &str, dataset_id: &str) -> (token: String)
        ensures
            is_v4_uuid_text(token@),
            final(self)@ == old(self)@.insert(token@, TokenRecordView { flow_id: flow_id@, dataset_id: dataset_id@ }),
    {
        let token = fresh_token();
        self.insert(token.clone(), TokenRecord { flow_id: String::from_str(flow_id), dataset_id: String::from_str(dataset_id) });
        token
    }

    /// Maps `token` to `record`, replacing what it was mapped to.
    fn insert(&mut self, token: String, record: TokenRecord)
        ensures
            final(self)@ == old(self)@.insert(token@, record@),
    {
        proof { use_type_invariant(&*self); }
        let ghost before = self.tokens@;
        let ghost k = token@;
        let ghost rv = record@;
        match self.find(token.as_str()) {
            Some(i) => {
                let mut tokens: Vec<(String, TokenRecord)> = Vec::new();
                std::mem::swap(&mut tokens, &mut self.tokens);
                tokens.set(i, (token, record));
                proof {
                    assert(keys_unique(tokens@)) by {
                        assert forall|a: int, b: int| 0 <= a < tokens@.len() && 0 <= b < tokens@.len() && a != b
                            implies tokens@[a].0@ != tokens@[b].0@ by {
                            if a != i && b != i {
                                assert(tokens@[a] == before[a] && tokens@[b] == before[b]);
                            } else if a == i {
                                assert(tokens@[b] == before[b]);
                                assert(before[i as int].0@ == k);
                            } else {
                                assert(tokens@[a] == before[a]);
                                assert(before[i as int].0@ == k);
                            }
                        }
                    }
                    lemma_entry(tokens@, k, i as int);
                    assert forall|q: Seq<char>| #[trigger] entries_map(tokens@).contains_key(q)
                        <==> entries_map(before).insert(k, rv).contains_key(q) by {
                        if entries_map(tokens@).contains_key(q) {
                            let j = choose|j: int| has_key(tokens@, q, j);
                            if j != i {
                                assert(has_key(before, q, j));
                            }
                        }
                        if entries_map(before).contains_key(q) && q != k {
                            let j = choose|j: int| has_key(before, q, j);
                            assert(j != i);
                            assert(has_key(tokens@, q, j));
                        }
                    }
                    assert forall|q: Seq<char>| #[trigger] entries_map(tokens@).contains_key(q) implies
                        entries_map(tokens@)[q] == entries_map(before).insert(k, rv)[q] by {
                        let j = choose|j: int| has_key(tokens@, q, j);
                        lemma_entry(tokens@, q, j);
                        if j != i {
                            assert(has_key(before, q, j));
                            lemma_entry(before, q, j);
                        }
                    }
                    assert(entries_map(tokens@) =~= entries_map(before).insert(k, rv));
                }
                self.tokens = tokens;
            },
            None => {
                let mut tokens: Vec<(String, TokenRecord)> = Vec::new();
                std::mem::swap(&mut tokens, &mut self.tokens);
                tokens.push((token, record));
                proof {
                    let n = before.len() as int;
                    assert(keys_unique(tokens@)) by {
                        assert forall|a: int, b: int| 0 <= a < tokens@.len() && 0 <= b < tokens@.len() && a != b
                            implies tokens@[a].0@ != tokens@[b].0@ by {
                            if a < n && b < n {
                                assert(tokens@[a] == before[a] && tokens@[b] == before[b]);
                            } else if a == n {
                                assert(tokens@[b] == before[b]);
                                assert(!has_key(before, k, b));
                            } else {
                                assert(tokens@[a] == before[a]);
                                assert(!has_key(before, k, a));
                            }
                        }
                    }
                    lemma_entry(tokens@, k, n);
                    assert forall|q: Seq<char>| #[trigger] entries_map(tokens@).contains_key(q)
                        <==> entries_map(before).insert(k, rv).contains_key(q) by {
                        if entries_map(tokens@).contains_key(q) {
                            let j = choose|j: int| has_key(tokens@, q, j);
                            if j != n {
                                assert(has_key(before, q, j));
                            }
                        }
                        if entries_map(before).contains_key(q) {
                            let j = choose|j: int| has_key(before, q, j);
                            assert(has_key(tokens@, q, j));
                        }
                    }
                    assert forall|q: Seq<char>| #[trigger] entries_map(tokens@).contains_key(q) implies
                        entries_map(tokens@)[q] == entries_map(before).insert(k, rv)[q] by {
                        let j = choose|j: int| has_key(tokens@, q, j);
                        lemma_entry(tokens@, q, j);
                        if j != n {
                            assert(has_key(before, q, j));
                            lemma_entry(before, q, j);
                        }
                    }
                    assert(entries_map(tokens@) =~= entries_map(before).insert(k, rv));
                }
                self.tokens = tokens;
            },
        }
    }

    /// The record `token` was issued with, if it is still live.
    pub fn lookup(&self, token: &str) -> (r: Option<TokenRecord>)
        ensures
            match r {
                Some(rec) => self@.contains_key(token@) && rec@ == self@[token@],
                None => !self@.contains_key(token@),
            },
    {
        proof { use_type_invariant(self); }
        match self.find(token) {
            Some(i) => {
                proof { lemma_entry(self.tokens@, token@, i as int); }
                Some(self.tokens[i].1.duplicate())
            },
            None => None,
        }
    }

    /// Revokes every token issued for `flow_id`, keeping every other one.
    pub fn revoke_flow(&mut self, flow_id: &str)
        ensures
            final(self)@ == old(self)@.restrict(old(self)@.dom().filter(
                |k: Seq<char>| old(self)@[k].flow_id != flow_id@)),
    {
        proof { use_type_invariant(&*self); }
        let ghost before = self.tokens@;
        let mut old_tokens: Vec<(String, TokenRecord)> = Vec::new();
        std::mem::swap(&mut old_tokens, &mut self.tokens);
        let mut kept: Vec<(String, TokenRecord)> = Vec::new();
        let ghost mut origin: Seq<int> = Seq::empty();
        let mut rest = old_tokens;
        let revoked = String::from_str(flow_id);
        let ghost mut taken: int = 0;
        while rest.len() > 0
            invariant
                keys_unique(before),
                revoked@ == flow_id@,
                0 <= taken <= before.len(),
                rest@ == before.subrange(taken, before.len() as int),
                origin.len() == kept@.len(),
                forall|m: int| 0 <= m < kept@.len() ==> 0 <= #[trigger] origin[m] < taken
                    && kept@[m] == before[origin[m]] && before[origin[m]].1.flow_id@ != flow_id@,
                forall|m1: int, m2: int| 0 <= m1 < m2 < kept@.len() ==> #[trigger] origin[m1] < #[trigger] origin[m2],
                forall|j: int| 0 <= j < taken && #[trigger] before[j].1.flow_id@ != flow_id@ ==>
                    exists|m: int| 0 <= m < kept@.len() && origin[m] == j,
            decreases rest.len(),
        {
            let e = rest.remove(0);
            assert(e == before[taken]);
            let ghost old_origin = origin;
            let ghost old_kept = kept@;
            if e.1.flow_id != revoked {
                proof { origin = origin.push(taken); }
                kept.push(e);
            }
            proof {
                assert forall|j: int| 0 <= j < taken + 1 && #[trigger] before[j].1.flow_id@ != flow_id@ implies
                    exists|m: int| 0 <= m < kept@.len() && origin[m] == j by {
                    if j < taken {
                        let m = choose|m: int| 0 <= m < old_kept.len() && old_origin[m] == j;
                        assert(origin[m] == j);
                    } else {
                        assert(origin[old_kept.len() as int] == j);
                    }
                }
            }
            proof { taken = taken + 1; }
            assert(rest@ =~= before.subrange(taken, before.len() as int));
        }
        proof {
            assert(keys_unique(kept@)) by {
                assert forall|a: int, b: int| 0 <= a < kept@.len() && 0 <= b < kept@.len() && a != b
                    implies kept@[a].0@ != kept@[b].0@ by {
                    if a < b { assert(origin[a] < origin[b]); } else { assert(origin[b] < origin[a]); }
                }
            }
            let target = entries_map(before).restrict(entries_map(before).dom().filter(
                |k: Seq<char>| entries_map(before)[k].flow_id != flow_id@));
            assert forall|q: Seq<char>| #[trigger] entries_map(kept@).contains_key(q) <==> target.contains_key(q) by {
                if entries_map(kept@).contains_key(q) {
                    let m = choose|m: int| has_key(kept@, q, m);
                    lemma_entry(before, q, origin[m]);
                }
                if target.contains_key(q) {
                    let j = choose|j: int| has_key(before, q, j);
                    lemma_entry(before, q, j);
                    let m = choose|m: int| 0 <= m < kept@.len() && origin[m] == j;
                    assert(has_key(kept@, q, m));
                }
            }
            assert forall|q: Seq<char>| #[trigger] entries_map(kept@).contains_key(q) implies
                entries_map(kept@)[q] == target[q] by {
                let m = choose|m: int| has_key(kept@, q, m);
                lemma_entry(kept@, q, m);
                lemma_entry(before, q, origin[m]);
            }
            assert(entries_map(kept@) =~= target);
        }
        self.tokens = kept;
    }
}

/// Issuing a token makes it resolve to the flow and dataset it was issued
/// for, and leaves every other token as it was.
pub proof fn law_issued_token_resolves(before: Map<Seq<char>, TokenRecordView>, after: Map<Seq<char>, TokenRecordView>,
    token: Seq<char>, flow_id: Seq<char>, dataset_id: Seq<char>)
    requires
        after == before.insert(token, TokenRecordView { flow_id, dataset_id }),
    ensures
        after.contains_key(token),
        after[token].flow_id == flow_id,
        after[token].dataset_id == dataset_id,
        forall|t: Seq<char>| t != token ==> (after.contains_key(t) == before.contains_key(t)
            && (before.contains_key(t) ==> #[trigger] after[t] == before[t])),
{
}

/// Revoking a flow removes every token issued for it, so none of them is
/// accepted any more, and keeps every token of every other flow.
pub proof fn law_revoke_flow(before: Map<Seq<char>, TokenRecordView>, after: Map<Seq<char>, TokenRecordView>,
    flow_id: Seq<char>)
    requires
        after == before.restrict(before.dom().filter(|k: Seq<char>| before[k].flow_id != flow_id)),
    ensures
        forall|t: Seq<char>| #[trigger] after.contains_key(t) ==> after[t].flow_id != flow_id,
        forall|t: Seq<char>| #[trigger] before.contains_key(t) && before[t].flow_id != flow_id ==>
            after.contains_key(t) && after[t] == before[t],
{
}

/// A token issued for a flow stops resolving once that flow is revoked,
/// whatever else the store held.
pub proof fn law_terminate_revokes_issued_token(store: Map<Seq<char>, TokenRecordView>,
    issued: Map<Seq<char>, TokenRecordView>, revoked: Map<Seq<char>, TokenRecordView>,
    token: Seq<char>, flow_id: Seq<char>, dataset_id: Seq<char>)
    requires
        issued == store.insert(token, TokenRecordView { flow_id, dataset_id }),
        revoked == issued.restrict(issued.dom().filter(|k: Seq<char>| issued[k].flow_id != flow_id)),
    ensures
        !revoked.contains_key(token),
{
    assert(issued[token].flow_id == flow_id);
}

impl Default for TokenStore {
    fn default() -> (s: TokenStore)
        ensures
            s@ == Map::<Seq<char>, TokenRecordView>::empty(),
    {
        TokenStore::new()
    }
}

} // verus!
