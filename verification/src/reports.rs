//! The reports of the store: pages, searches, holder lists, sums and
//! ranks. They read whole tables and change nothing.

use crate::db::Db;
use crate::ledger::{DbError, Ledger, Text};
use crate::records::{
    Balance, InscriptionMeta, NameRecord, TokenInfo, Zrc721Collection, Zrc721Token,
    Zrc721TokenView,
};
use crate::sums::{
    available_weights, lemma_total_prefix, overall_weights, sum_available, sum_overall, total,
};
use crate::table::{newest_page, pairs, Stored, Table};
use crate::text::{
    chars_of, contains_text, has_text, lemma_text_lt_irreflexive, lemma_text_lt_transitive,
    lowercase, lowercase_of, text_less, text_lt,
};
use vstd::prelude::*;

verus! {

/// The part of `s` that starts at `offset` and holds up to `limit`
/// entries.
pub open spec fn page_of<T>(s: Seq<T>, offset: int, limit: int) -> Seq<T> {
    let start = if offset < s.len() {
        offset
    } else {
        s.len() as int
    };
    let end = if start + limit < s.len() {
        start + limit
    } else {
        s.len() as int
    };
    s.subrange(start, end)
}

/// The offset of a page: the page number times the page size, or the
/// greatest offset there is where the product exceeds it.
pub open spec fn page_offset(page: usize, limit: usize) -> int {
    if page * limit <= usize::MAX {
        page * limit
    } else {
        usize::MAX as int
    }
}

/// The offset of a page.
fn offset_of(page: usize, limit: usize) -> (r: usize)
    ensures
        r == page_offset(page, limit),
{
    match page.checked_mul(limit) {
        Some(o) => o,
        None => usize::MAX,
    }
}

/// The entries whose key in lower case holds `needle`, oldest first.
pub open spec fn matching<A>(e: Seq<(Text, A)>, needle: Text) -> Seq<(Text, A)>
    decreases e.len(),
{
    if e.len() == 0 {
        Seq::empty()
    } else if contains_text(lowercase_of(e.last().0), needle) {
        matching(e.drop_last(), needle).push(e.last())
    } else {
        matching(e.drop_last(), needle)
    }
}

/// The first matches of a search: as many as `limit`, and one even where
/// `limit` is zero.
pub open spec fn search_result<A>(e: Seq<(Text, A)>, query: Text, limit: int) -> Seq<(Text, A)> {
    let found = matching(e, lowercase_of(query));
    let most = if limit < 1 {
        1
    } else {
        limit
    };
    if found.len() <= most {
        found
    } else {
        found.take(most)
    }
}

/// Searches the keys of a table without regard to case.
fn search<V: Stored>(table: &Table<String, V>, query: &str, limit: usize) -> (r: Vec<(String, V)>)
    ensures
        pairs(r@) == search_result(table@, query@, limit as int),
{
    let needle = chars_of(lowercase(query).as_str());
    let ghost most: int = if limit < 1 {
        1
    } else {
        limit as int
    };
    let mut r: Vec<(String, V)> = Vec::new();
    let mut i: usize = 0;
    assert(table@.take(0) =~= Seq::<(Text, V::V)>::empty());
    assert(pairs(r@) =~= matching(table@.take(0), needle@));
    while i < table.len()
        invariant
            i <= table@.len(),
            most == if limit < 1 {
                1
            } else {
                limit as int
            },
            needle@ == lowercase_of(query@),
            pairs(r@) == matching(table@.take(i as int), needle@),
            r.len() < most,
        decreases table@.len() - i,
    {
        let key = table.key_at(i);
        assert(table@.take(i as int + 1).drop_last() =~= table@.take(i as int));
        assert(table@.take(i as int + 1).last() == table@[i as int]);
        if has_text(&chars_of(lowercase(key.as_str()).as_str()), &needle) {
            let ghost before = pairs(r@);
            r.push((key.clone(), table.value_at(i).duplicate()));
            assert(pairs(r@) =~= before.push(table@[i as int]));
            if r.len() >= limit {
                proof {
                    lemma_matching_prefix(table@, needle@, i as int + 1);
                }
                return r;
            }
        }
        i += 1;
    }
    assert(table@.take(table@.len() as int) =~= table@);
    r
}

/// The matches among the first entries are the first matches.
pub proof fn lemma_matching_prefix<A>(e: Seq<(Text, A)>, needle: Text, k: int)
    requires
        0 <= k <= e.len(),
    ensures
        matching(e.take(k), needle).len() <= matching(e, needle).len(),
        matching(e.take(k), needle) == matching(e, needle).take(
            matching(e.take(k), needle).len() as int,
        ),
    decreases e.len(),
{
    if k == e.len() {
        assert(e.take(k) =~= e);
        assert(matching(e, needle).take(matching(e, needle).len() as int) =~= matching(
            e,
            needle,
        ));
    } else {
        assert(e.drop_last().take(k) =~= e.take(k));
        lemma_matching_prefix(e.drop_last(), needle, k);
        let shorter = matching(e.drop_last(), needle);
        let part = matching(e.take(k), needle);
        assert(matching(e, needle).take(part.len() as int) =~= shorter.take(part.len() as int));
    }
}

/// The holders of `tick` with their balances, in the order of the table.
pub open spec fn holders_of(b: Seq<((Text, Text), Balance)>, tick: Text) -> Seq<(Text, Balance)>
    decreases b.len(),
{
    if b.len() == 0 {
        Seq::empty()
    } else if b.last().0.1 == tick {
        holders_of(b.drop_last(), tick).push((b.last().0.0, b.last().1))
    } else {
        holders_of(b.drop_last(), tick)
    }
}

/// The holders of `tick` that hold more than nothing, in the order of the
/// table.
pub open spec fn positive_holders_of(b: Seq<((Text, Text), Balance)>, tick: Text) -> Seq<
    (Text, Balance),
>
    decreases b.len(),
{
    if b.len() == 0 {
        Seq::empty()
    } else if b.last().0.1 == tick && b.last().1.overall > 0 {
        positive_holders_of(b.drop_last(), tick).push((b.last().0.0, b.last().1))
    } else {
        positive_holders_of(b.drop_last(), tick)
    }
}

/// The tokens that `address` holds with their balances, in the order of
/// the table.
pub open spec fn holdings_of(b: Seq<((Text, Text), Balance)>, address: Text) -> Seq<
    (Text, Balance),
>
    decreases b.len(),
{
    if b.len() == 0 {
        Seq::empty()
    } else if b.last().0.0 == address {
        holdings_of(b.drop_last(), address).push((b.last().0.1, b.last().1))
    } else {
        holdings_of(b.drop_last(), address)
    }
}

/// Where a row finds its place among rows that are ranked by what they
/// hold overall: before the first row from position `k` on that holds
/// less.
pub open spec fn slot_by_overall(sorted: Seq<(Text, Balance)>, x: (Text, Balance), k: int) -> int
    decreases sorted.len() - k,
{
    if k < 0 || k >= sorted.len() || x.1.overall > sorted[k].1.overall {
        k
    } else {
        slot_by_overall(sorted, x, k + 1)
    }
}

/// The rows ranked by what they hold overall, the greatest first; rows
/// that hold the same keep their order.
pub open spec fn ranked_by_overall(s: Seq<(Text, Balance)>) -> Seq<(Text, Balance)>
    decreases s.len(),
{
    if s.len() == 0 {
        s
    } else {
        let rest = ranked_by_overall(s.drop_last());
        rest.insert(slot_by_overall(rest, s.last(), 0), s.last())
    }
}

/// Where a row finds its place, every row before holds at least as much
/// and the row at the place holds less.
pub proof fn lemma_slot(sorted: Seq<(Text, Balance)>, x: (Text, Balance), k: int)
    requires
        0 <= k <= sorted.len(),
    ensures
        k <= slot_by_overall(sorted, x, k) <= sorted.len(),
        forall|j: int|
            k <= j < slot_by_overall(sorted, x, k) ==> (#[trigger] sorted[j]).1.overall
                >= x.1.overall,
        slot_by_overall(sorted, x, k) < sorted.len() ==> sorted[slot_by_overall(
            sorted,
            x,
            k,
        )].1.overall < x.1.overall,
    decreases sorted.len() - k,
{
    if k < sorted.len() && !(x.1.overall > sorted[k].1.overall) {
        lemma_slot(sorted, x, k + 1);
    }
}

/// No row holds more than a row before it.
pub open spec fn descending(s: Seq<(Text, Balance)>) -> bool {
    forall|i: int, j: int|
        0 <= i < j < s.len() ==> (#[trigger] s[i]).1.overall >= (#[trigger] s[j]).1.overall
}

/// Ranking puts the rows in descending order and neither adds nor drops
/// a row.
pub proof fn lemma_ranked(s: Seq<(Text, Balance)>)
    ensures
        descending(ranked_by_overall(s)),
        ranked_by_overall(s).len() == s.len(),
        ranked_by_overall(s).to_multiset() == s.to_multiset(),
    decreases s.len(),
{
    broadcast use vstd::seq_lib::group_to_multiset_ensures;

    if s.len() > 0 {
        let x = s.last();
        let rest = ranked_by_overall(s.drop_last());
        lemma_ranked(s.drop_last());
        lemma_slot(rest, x, 0);
        let k = slot_by_overall(rest, x, 0);
        let r = rest.insert(k, x);
        assert forall|i: int, j: int| 0 <= i < j < r.len() implies (#[trigger] r[i]).1.overall >= (
        #[trigger] r[j]).1.overall by {
            if j < k {
                assert(r[i] == rest[i] && r[j] == rest[j]);
            } else if j == k {
                assert(r[i] == rest[i]);
            } else if i < k {
                assert(r[i] == rest[i] && r[j] == rest[j - 1]);
            } else if i == k {
                assert(r[j] == rest[j - 1]);
                assert(rest[k].1.overall >= rest[j - 1].1.overall || j - 1 == k);
            } else {
                assert(r[i] == rest[i - 1] && r[j] == rest[j - 1]);
            }
        }
        vstd::seq_lib::to_multiset_insert(rest, k, x);
        assert(s =~= s.drop_last().push(x));
        assert(s.to_multiset() =~= s.drop_last().to_multiset().insert(x));
    }
}

/// Puts a row in its place among ranked rows.
fn place_by_overall(sorted: &mut Vec<(String, Balance)>, row: (String, Balance))
    ensures
        final(sorted).len() == old(sorted).len() + 1,
        pairs(final(sorted)@) == pairs(old(sorted)@).insert(
            slot_by_overall(pairs(old(sorted)@), (row.0@, row.1), 0),
            (row.0@, row.1),
        ),
{
    let ghost before = pairs(sorted@);
    let ghost x = (row.0@, row.1);
    let mut k: usize = 0;
    while k < sorted.len() && !(row.1.overall > sorted[k].1.overall)
        invariant
            k <= sorted.len(),
            before == pairs(sorted@),
            x == (row.0@, row.1),
            slot_by_overall(before, x, 0) == slot_by_overall(before, x, k as int),
        decreases sorted.len() - k,
    {
        assert(before[k as int] == (sorted@[k as int].0@, sorted@[k as int].1@));
        k += 1;
    }
    proof {
        if k < sorted.len() {
            assert(before[k as int] == (sorted@[k as int].0@, sorted@[k as int].1@));
        }
    }
    sorted.insert(k, row);
    assert(pairs(sorted@) =~= before.insert(k as int, x));
}

/// One page of a list of rows.
fn page_rows(rows: &Vec<(String, Balance)>, offset: usize, limit: usize) -> (r: Vec<
    (String, Balance),
>)
    ensures
        pairs(r@) == page_of(pairs(rows@), offset as int, limit as int),
{
    let n: usize = rows.len();
    let start: usize = if offset < n {
        offset
    } else {
        n
    };
    let end: usize = if limit < n - start {
        start + limit
    } else {
        n
    };
    let mut r: Vec<(String, Balance)> = Vec::new();
    let mut i: usize = start;
    while i < end
        invariant
            start <= i <= end <= n,
            n == rows.len(),
            r.len() == i - start,
            forall|j: int|
                0 <= j < i - start ==> (#[trigger] r@[j]).0@ == rows@[start + j].0@ && r@[j].1
                    == rows@[start + j].1,
        decreases end - i,
    {
        r.push((rows[i].0.clone(), rows[i].1));
        i += 1;
    }
    assert(pairs(r@) =~= page_of(pairs(rows@), offset as int, limit as int));
    r
}

/// What a token's holders hold together.
#[derive(Debug, Clone, Copy, PartialEq, Eq, Structural)]
pub struct TickSums {
    pub overall: u128,
    pub available: u128,
    /// The number of balances kept for the token.
    pub holders: usize,
    /// The number of those that hold more than nothing.
    pub holders_positive: usize,
}

/// Whether a token's supply matches what its holders hold.
#[derive(Debug, Clone, Copy, PartialEq, Eq, Structural)]
pub struct Integrity {
    pub supply: u128,
    pub sum_overall: u128,
    pub sum_available: u128,
    pub burned: u128,
    pub holders: usize,
    pub holders_positive: usize,
    /// The supply is the sum of all holdings and of what was burned.
    pub consistent: bool,
}

/// How far the follower is.
#[derive(Debug, Clone, Copy, PartialEq, Eq, Structural)]
pub struct Health {
    pub core_height: Option<u64>,
    pub chain_tip: Option<u64>,
    pub zrc20_height: Option<u64>,
    pub zrc721_height: Option<u64>,
    pub names_height: Option<u64>,
    /// The core height is at most one block behind the tip.
    pub synced: bool,
}

/// How many transfers of `tick` were settled.
pub open spec fn settled_count(l: Ledger, tick: Text, k: int) -> nat
    decreases k,
{
    if k <= 0 || k > l.transfers.len() {
        0
    } else {
        settled_count(l, tick, k - 1) + if l.transfers[k - 1].1.tick == tick && l.is_used(
            l.transfers[k - 1].0,
        ) {
            1nat
        } else {
            0nat
        }
    }
}

/// The first outpoint from position `k` on that carries the transfer
/// intent `id`.
pub open spec fn first_carrier(e: Seq<((Text, u32), Text)>, id: Text, k: int) -> Option<
    (Text, u32),
>
    decreases e.len() - k,
{
    if k < 0 || k >= e.len() {
        None
    } else if e[k].1 == id {
        Some(e[k].0)
    } else {
        first_carrier(e, id, k + 1)
    }
}

/// The rank of `address` among ranked rows: the position of its first row,
/// counted from one, or zero where it has none.
pub open spec fn rank_of(sorted: Seq<(Text, Balance)>, address: Text, k: int) -> nat
    decreases sorted.len() - k,
{
    if k < 0 || k >= sorted.len() {
        0
    } else if sorted[k].0 == address {
        (k + 1) as nat
    } else {
        rank_of(sorted, address, k + 1)
    }
}

/// Whether token `a` comes before token `b`: by their ids as strings, or,
/// where `by_collection` is set, by their collections first.
pub open spec fn token_before(a: Zrc721TokenView, b: Zrc721TokenView, by_collection: bool)
    -> bool {
    if by_collection && a.tick != b.tick {
        text_lt(a.tick, b.tick)
    } else {
        text_lt(a.token_id, b.token_id)
    }
}

/// Where a token finds its place among ordered tokens: before the first
/// token from position `k` on that comes after it.
pub open spec fn slot_of_token(
    sorted: Seq<Zrc721TokenView>,
    x: Zrc721TokenView,
    by_collection: bool,
    k: int,
) -> int
    decreases sorted.len() - k,
{
    if k < 0 || k >= sorted.len() || token_before(x, sorted[k], by_collection) {
        k
    } else {
        slot_of_token(sorted, x, by_collection, k + 1)
    }
}

/// The tokens in the order of their ids, or of their collections and then
/// their ids; tokens that compare the same keep their order.
pub open spec fn ranked_tokens(s: Seq<Zrc721TokenView>, by_collection: bool) -> Seq<
    Zrc721TokenView,
>
    decreases s.len(),
{
    if s.len() == 0 {
        s
    } else {
        let rest = ranked_tokens(s.drop_last(), by_collection);
        rest.insert(slot_of_token(rest, s.last(), by_collection, 0), s.last())
    }
}

/// The order of tokens is transitive.
pub proof fn lemma_token_before_transitive(
    a: Zrc721TokenView,
    b: Zrc721TokenView,
    c: Zrc721TokenView,
    by_collection: bool,
)
    requires
        token_before(a, b, by_collection),
        token_before(b, c, by_collection),
    ensures
        token_before(a, c, by_collection),
{
    if by_collection && a.tick != b.tick {
        if b.tick != c.tick {
            lemma_text_lt_transitive(a.tick, b.tick, c.tick);
            lemma_text_lt_irreflexive(a.tick);
        }
    } else if by_collection && b.tick != c.tick {
    } else {
        lemma_text_lt_transitive(a.token_id, b.token_id, c.token_id);
    }
}

/// No token comes before a token that stands before it.
pub open spec fn tokens_in_order(s: Seq<Zrc721TokenView>, by_collection: bool) -> bool {
    forall|i: int, j: int|
        0 <= i < j < s.len() ==> !token_before(#[trigger] s[j], #[trigger] s[i], by_collection)
}

/// Where a token finds its place, it comes before no token that stands
/// before the place, and before the token at the place.
pub proof fn lemma_slot_of_token(
    sorted: Seq<Zrc721TokenView>,
    x: Zrc721TokenView,
    by_collection: bool,
    k: int,
)
    requires
        0 <= k <= sorted.len(),
    ensures
        k <= slot_of_token(sorted, x, by_collection, k) <= sorted.len(),
        forall|j: int|
            k <= j < slot_of_token(sorted, x, by_collection, k) ==> !token_before(
                x,
                #[trigger] sorted[j],
                by_collection,
            ),
        slot_of_token(sorted, x, by_collection, k) < sorted.len() ==> token_before(
            x,
            sorted[slot_of_token(sorted, x, by_collection, k)],
            by_collection,
        ),
    decreases sorted.len() - k,
{
    if k < sorted.len() && !token_before(x, sorted[k], by_collection) {
        lemma_slot_of_token(sorted, x, by_collection, k + 1);
    }
}

/// Ordering puts the tokens in order and neither adds nor drops a token.
pub proof fn lemma_ranked_tokens(s: Seq<Zrc721TokenView>, by_collection: bool)
    ensures
        tokens_in_order(ranked_tokens(s, by_collection), by_collection),
        ranked_tokens(s, by_collection).len() == s.len(),
        ranked_tokens(s, by_collection).to_multiset() == s.to_multiset(),
    decreases s.len(),
{
    broadcast use vstd::seq_lib::group_to_multiset_ensures;

    if s.len() > 0 {
        let x = s.last();
        let rest = ranked_tokens(s.drop_last(), by_collection);
        lemma_ranked_tokens(s.drop_last(), by_collection);
        lemma_slot_of_token(rest, x, by_collection, 0);
        let k = slot_of_token(rest, x, by_collection, 0);
        let r = rest.insert(k, x);
        assert forall|i: int, j: int| 0 <= i < j < r.len() implies !token_before(
            #[trigger] r[j],
            #[trigger] r[i],
            by_collection,
        ) by {
            if j < k {
                assert(r[i] == rest[i] && r[j] == rest[j]);
            } else if j == k {
                assert(r[i] == rest[i]);
            } else if i < k {
                assert(r[i] == rest[i] && r[j] == rest[j - 1]);
            } else if i == k {
                assert(r[j] == rest[j - 1]);
                if token_before(rest[j - 1], x, by_collection) {
                    lemma_token_before_transitive(rest[j - 1], x, rest[k], by_collection);
                    if j - 1 == k {
                        lemma_text_lt_irreflexive(rest[k].tick);
                        lemma_text_lt_irreflexive(rest[k].token_id);
                    }
                }
            } else {
                assert(r[i] == rest[i - 1] && r[j] == rest[j - 1]);
            }
        }
        vstd::seq_lib::to_multiset_insert(rest, k, x);
        assert(s =~= s.drop_last().push(x));
        assert(s.to_multiset() =~= s.drop_last().to_multiset().insert(x));
    }
}

/// The tokens of the collection `tick`, in the order of the table.
pub open spec fn tokens_in(nfts: Seq<((Text, Text), Zrc721TokenView)>, tick: Text) -> Seq<
    Zrc721TokenView,
>
    decreases nfts.len(),
{
    if nfts.len() == 0 {
        Seq::empty()
    } else if nfts.last().0.0 == tick {
        tokens_in(nfts.drop_last(), tick).push(nfts.last().1)
    } else {
        tokens_in(nfts.drop_last(), tick)
    }
}

/// The tokens that `address` owns, in the order of the table.
pub open spec fn tokens_owned(nfts: Seq<((Text, Text), Zrc721TokenView)>, address: Text) -> Seq<
    Zrc721TokenView,
>
    decreases nfts.len(),
{
    if nfts.len() == 0 {
        Seq::empty()
    } else if nfts.last().1.owner == address {
        tokens_owned(nfts.drop_last(), address).push(nfts.last().1)
    } else {
        tokens_owned(nfts.drop_last(), address)
    }
}

/// The values that a sequence of tokens stands for.
pub open spec fn token_views(v: Seq<Zrc721Token>) -> Seq<Zrc721TokenView> {
    v.map_values(|t: Zrc721Token| t@)
}

/// Whether token `a` comes before token `b`.
fn token_precedes(a: &Zrc721Token, b: &Zrc721Token, by_collection: bool) -> (r: bool)
    ensures
        r == token_before(a@, b@, by_collection),
{
    if by_collection && a.tick != b.tick {
        text_less(&chars_of(a.tick.as_str()), &chars_of(b.tick.as_str()))
    } else {
        text_less(&chars_of(a.token_id.as_str()), &chars_of(b.token_id.as_str()))
    }
}

/// Puts a token in its place among ordered tokens.
fn place_token(sorted: &mut Vec<Zrc721Token>, token: Zrc721Token, by_collection: bool)
    ensures
        token_views(final(sorted)@) == token_views(old(sorted)@).insert(
            slot_of_token(token_views(old(sorted)@), token@, by_collection, 0),
            token@,
        ),
{
    let ghost before = token_views(sorted@);
    let mut k: usize = 0;
    while k < sorted.len() && !token_precedes(&token, &sorted[k], by_collection)
        invariant
            k <= sorted.len(),
            before == token_views(sorted@),
            slot_of_token(before, token@, by_collection, 0) == slot_of_token(
                before,
                token@,
                by_collection,
                k as int,
            ),
        decreases sorted.len() - k,
    {
        assert(before[k as int] == sorted@[k as int]@);
        k += 1;
    }
    proof {
        if k < sorted.len() {
            assert(before[k as int] == sorted@[k as int]@);
        }
    }
    let ghost x = token@;
    sorted.insert(k, token);
    assert(token_views(sorted@) =~= before.insert(k as int, x));
}

/// One page of a list of tokens.
fn page_tokens(rows: &Vec<Zrc721Token>, offset: usize, limit: usize) -> (r: Vec<Zrc721Token>)
    ensures
        token_views(r@) == page_of(token_views(rows@), offset as int, limit as int),
{
    let n: usize = rows.len();
    let start: usize = if offset < n {
        offset
    } else {
        n
    };
    let end: usize = if limit < n - start {
        start + limit
    } else {
        n
    };
    let mut r: Vec<Zrc721Token> = Vec::new();
    let mut i: usize = start;
    while i < end
        invariant
            start <= i <= end <= n,
            n == rows.len(),
            r.len() == i - start,
            forall|j: int| 0 <= j < i - start ==> (#[trigger] r@[j])@ == rows@[start + j]@,
        decreases end - i,
    {
        r.push(rows[i].duplicate());
        i += 1;
    }
    assert(token_views(r@) =~= page_of(token_views(rows@), offset as int, limit as int));
    r
}

impl Db {
    /// A page of inscriptions, newest first.
    pub fn get_inscriptions_page(&self, page: usize, limit: usize) -> (r: Vec<
        (String, InscriptionMeta),
    >)
        ensures
            pairs(r@) == newest_page(self@.inscriptions, page_offset(page, limit), limit as int),
    {
        self.inscriptions_table().newest_first(offset_of(page, limit), limit)
    }

    /// A page of tokens, newest first.
    pub fn get_tokens_page(&self, page: usize, limit: usize) -> (r: Vec<(String, TokenInfo)>)
        ensures
            pairs(r@) == newest_page(self@.tokens, page_offset(page, limit), limit as int),
    {
        self.tokens_table().newest_first(offset_of(page, limit), limit)
    }

    /// A page of names, newest first.
    pub fn get_names_page(&self, page: usize, limit: usize) -> (r: Vec<(String, NameRecord)>)
        ensures
            pairs(r@) == newest_page(self@.names, page_offset(page, limit), limit as int),
    {
        self.names_table().newest_first(offset_of(page, limit), limit)
    }

    /// A page of collections, newest first.
    pub fn list_zrc721_collections(&self, page: usize, limit: usize) -> (r: Vec<
        (String, Zrc721Collection),
    >)
        ensures
            pairs(r@) == newest_page(self@.collections, page_offset(page, limit), limit as int),
    {
        self.collections_table().newest_first(offset_of(page, limit), limit)
    }

    /// Every token, oldest first.
    pub fn get_all_tokens(&self) -> (r: Vec<(String, TokenInfo)>)
        ensures
            pairs(r@) == self@.tokens,
    {
        self.tokens_table().entries()
    }

    /// Every name, oldest first.
    pub fn get_all_names(&self) -> (r: Vec<(String, NameRecord)>)
        ensures
            pairs(r@) == self@.names,
    {
        self.names_table().entries()
    }

    /// The first tokens whose ticker holds `query`, without regard to
    /// case.
    pub fn search_tokens(&self, query: &str, limit: usize) -> (r: Vec<(String, TokenInfo)>)
        ensures
            pairs(r@) == search_result(self@.tokens, query@, limit as int),
    {
        search(self.tokens_table(), query, limit)
    }

    /// The first names that hold `query`, without regard to case.
    pub fn search_names(&self, query: &str, limit: usize) -> (r: Vec<(String, NameRecord)>)
        ensures
            pairs(r@) == search_result(self@.names, query@, limit as int),
    {
        search(self.names_table(), query, limit)
    }

    /// The outpoint that carries the transfer intent `inscription_id`: the
    /// oldest where several do.
    #[verifier::loop_isolation(false)]
    pub fn find_outpoint_by_transfer_id(&self, inscription_id: &str) -> (r: Option<(String, u32)>)
        ensures
            match r {
                Some(o) => first_carrier(self@.transfer_outpoints, inscription_id@, 0) == Some(
                    (o.0@, o.1),
                ),
                None => first_carrier(self@.transfer_outpoints, inscription_id@, 0) is None,
            },
    {
        let table = self.transfer_outpoints_table();
        let wanted = inscription_id.to_owned();
        let mut i: usize = 0;
        while i < table.len()
            invariant
                i <= table@.len(),
                wanted@ == inscription_id@,
                first_carrier(table@, inscription_id@, 0) == first_carrier(
                    table@,
                    inscription_id@,
                    i as int,
                ),
            decreases table@.len() - i,
        {
            if *table.value_at(i) == wanted {
                let key = table.key_at(i);
                return Some((key.0.clone(), key.1));
            }
            i += 1;
        }
        None
    }

    /// A page of the holders of `tick`, the greatest first, and how many
    /// holders there are.
    pub fn list_balances_for_tick(&self, tick: &str, page: usize, limit: usize) -> (r: (
        Vec<(String, Balance)>,
        usize,
    ))
        ensures
            pairs(r.0@) == page_of(
                ranked_by_overall(holders_of(self@.balances, lowercase_of(tick@))),
                page_offset(page, limit),
                limit as int,
            ),
            r.1 == holders_of(self@.balances, lowercase_of(tick@)).len(),
    {
        let needle = lowercase(tick);
        let table = self.balances_table();
        let mut sorted: Vec<(String, Balance)> = Vec::new();
        let mut i: usize = 0;
        assert(table@.take(0) =~= Seq::<((Text, Text), Balance)>::empty());
        assert(pairs(sorted@) =~= ranked_by_overall(holders_of(table@.take(0), needle@)));
        while i < table.len()
            invariant
                i <= table@.len(),
                sorted.len() == holders_of(table@.take(i as int), needle@).len(),
                pairs(sorted@) == ranked_by_overall(holders_of(table@.take(i as int), needle@)),
            decreases table@.len() - i,
        {
            let key = table.key_at(i);
            assert(table@.take(i as int + 1).drop_last() =~= table@.take(i as int));
            assert(table@.take(i as int + 1).last() == table@[i as int]);
            if key.1 == needle {
                let ghost found = holders_of(table@.take(i as int + 1), needle@);
                assert(found.drop_last() =~= holders_of(table@.take(i as int), needle@));
                place_by_overall(&mut sorted, (key.0.clone(), *table.value_at(i)));
            }
            i += 1;
        }
        assert(table@.take(table@.len() as int) =~= table@);
        let total: usize = sorted.len();
        (page_rows(&sorted, offset_of(page, limit), limit), total)
    }

    /// The tokens that `address` holds, the greatest holding first.
    pub fn list_balances_for_address(&self, address: &str) -> (r: Vec<(String, Balance)>)
        ensures
            pairs(r@) == ranked_by_overall(holdings_of(self@.balances, address@)),
    {
        let wanted = address.to_owned();
        let table = self.balances_table();
        let mut sorted: Vec<(String, Balance)> = Vec::new();
        let mut i: usize = 0;
        assert(table@.take(0) =~= Seq::<((Text, Text), Balance)>::empty());
        assert(pairs(sorted@) =~= ranked_by_overall(holdings_of(table@.take(0), address@)));
        while i < table.len()
            invariant
                i <= table@.len(),
                wanted@ == address@,
                pairs(sorted@) == ranked_by_overall(holdings_of(table@.take(i as int), address@)),
            decreases table@.len() - i,
        {
            let key = table.key_at(i);
            assert(table@.take(i as int + 1).drop_last() =~= table@.take(i as int));
            assert(table@.take(i as int + 1).last() == table@[i as int]);
            if key.0 == wanted {
                let ghost found = holdings_of(table@.take(i as int + 1), address@);
                assert(found.drop_last() =~= holdings_of(table@.take(i as int), address@));
                place_by_overall(&mut sorted, (key.1.clone(), *table.value_at(i)));
            }
            i += 1;
        }
        assert(table@.take(table@.len() as int) =~= table@);
        sorted
    }

    /// What the holders of the token `needle` hold together, and how many
    /// they are.
    #[verifier::loop_isolation(false)]
    fn tick_sums(&self, needle: &String) -> (r: Result<TickSums, DbError>)
        ensures
            match r {
                Ok(s) => {
                    &&& s.overall == sum_overall(self@.balances, needle@)
                    &&& s.available == sum_available(self@.balances, needle@)
                    &&& s.holders == holders_of(self@.balances, needle@).len()
                    &&& s.holders_positive == positive_holders_of(self@.balances, needle@).len()
                },
                Err(e) => e == DbError::SumOverflow && (sum_overall(self@.balances, needle@)
                    > u128::MAX || sum_available(self@.balances, needle@) > u128::MAX),
            },
    {
        let table = self.balances_table();
        let ghost w = overall_weights(table@, needle@);
        let ghost v = available_weights(table@, needle@);
        let mut overall: u128 = 0;
        let mut available: u128 = 0;
        let mut holders: usize = 0;
        let mut holders_positive: usize = 0;
        let mut i: usize = 0;
        assert(table@.take(0) =~= Seq::<((Text, Text), Balance)>::empty());
        while i < table.len()
            invariant
                i <= table@.len(),
                w == overall_weights(table@, needle@),
                v == available_weights(table@, needle@),
                overall == total(w.take(i as int)),
                available == total(v.take(i as int)),
                holders == holders_of(table@.take(i as int), needle@).len(),
                holders_positive == positive_holders_of(table@.take(i as int), needle@).len(),
                holders_positive <= holders <= i,
            decreases table@.len() - i,
        {
            let key = table.key_at(i);
            assert(table@.take(i as int + 1).drop_last() =~= table@.take(i as int));
            assert(table@.take(i as int + 1).last() == table@[i as int]);
            assert(w.take(i as int + 1).drop_last() =~= w.take(i as int));
            assert(v.take(i as int + 1).drop_last() =~= v.take(i as int));
            proof {
                lemma_total_prefix(w, i as int + 1);
                lemma_total_prefix(v, i as int + 1);
            }
            if key.1 == *needle {
                let b = *table.value_at(i);
                assert(w[i as int] == b.overall as nat && v[i as int] == b.available as nat);
                assert(w.take(i as int + 1).last() == w[i as int]);
                assert(v.take(i as int + 1).last() == v[i as int]);
                overall = match overall.checked_add(b.overall) {
                    Some(s) => s,
                    None => {
                        return Err(DbError::SumOverflow);
                    },
                };
                available = match available.checked_add(b.available) {
                    Some(s) => s,
                    None => {
                        return Err(DbError::SumOverflow);
                    },
                };
                holders += 1;
                if b.overall > 0 {
                    holders_positive += 1;
                }
            }
            i += 1;
        }
        assert(table@.take(table@.len() as int) =~= table@);
        assert(w.take(table@.len() as int) =~= w);
        assert(v.take(table@.len() as int) =~= v);
        Ok(TickSums { overall, available, holders, holders_positive })
    }

    /// What the holders of `tick` hold together, and how many they are;
    /// an error where a sum does not fit 128 bits.
    pub fn sum_balances_for_tick(&self, tick: &str) -> (r: Result<TickSums, DbError>)
        ensures
            match r {
                Ok(s) => {
                    &&& s.overall == sum_overall(self@.balances, lowercase_of(tick@))
                    &&& s.available == sum_available(self@.balances, lowercase_of(tick@))
                    &&& s.holders == holders_of(self@.balances, lowercase_of(tick@)).len()
                    &&& s.holders_positive == positive_holders_of(
                        self@.balances,
                        lowercase_of(tick@),
                    ).len()
                },
                Err(e) => e == DbError::SumOverflow && (sum_overall(
                    self@.balances,
                    lowercase_of(tick@),
                ) > u128::MAX || sum_available(self@.balances, lowercase_of(tick@)) > u128::MAX),
            },
    {
        let needle = lowercase(tick);
        self.tick_sums(&needle)
    }

    /// How many transfers of `tick` were settled.
    pub fn count_completed_transfers_for_tick(&self, tick: &str) -> (n: u64)
        requires
            self.wf(),
        ensures
            n == settled_count(self@, lowercase_of(tick@), self@.transfers.len() as int),
    {
        let needle = lowercase(tick);
        let table = self.transfers_table();
        let mut count: u64 = 0;
        let mut i: usize = 0;
        while i < table.len()
            invariant
                i <= table@.len(),
                self.wf(),
                table@ == self@.transfers,
                count <= i,
                count == settled_count(self@, needle@, i as int),
            decreases table@.len() - i,
        {
            let t = table.value_at(i);
            if t.tick == needle && self.is_inscription_used(table.key_at(i).as_str()) {
                count += 1;
            }
            i += 1;
        }
        count
    }

    /// The rank of `address` among the holders of `tick` that hold more
    /// than nothing, counted from one with the greatest holder first, and
    /// how many such holders there are. The rank is zero for an address
    /// that is none of them.
    #[verifier::loop_isolation(false)]
    pub fn rank_for_address_in_tick(&self, tick: &str, address: &str) -> (r: (u64, u64))
        ensures
            r.0 == rank_of(
                ranked_by_overall(positive_holders_of(self@.balances, lowercase_of(tick@))),
                address@,
                0,
            ),
            r.1 == positive_holders_of(self@.balances, lowercase_of(tick@)).len(),
    {
        let needle = lowercase(tick);
        let wanted = address.to_owned();
        let table = self.balances_table();
        let mut sorted: Vec<(String, Balance)> = Vec::new();
        let mut i: usize = 0;
        assert(table@.take(0) =~= Seq::<((Text, Text), Balance)>::empty());
        assert(pairs(sorted@) =~= ranked_by_overall(positive_holders_of(table@.take(0), needle@)));
        while i < table.len()
            invariant
                i <= table@.len(),
                sorted.len() == positive_holders_of(table@.take(i as int), needle@).len(),
                sorted.len() <= i,
                pairs(sorted@) == ranked_by_overall(
                    positive_holders_of(table@.take(i as int), needle@),
                ),
            decreases table@.len() - i,
        {
            let key = table.key_at(i);
            let b = *table.value_at(i);
            assert(table@.take(i as int + 1).drop_last() =~= table@.take(i as int));
            assert(table@.take(i as int + 1).last() == table@[i as int]);
            if key.1 == needle && b.overall > 0 {
                let ghost found = positive_holders_of(table@.take(i as int + 1), needle@);
                assert(found.drop_last() =~= positive_holders_of(table@.take(i as int), needle@));
                place_by_overall(&mut sorted, (key.0.clone(), b));
            }
            i += 1;
        }
        assert(table@.take(table@.len() as int) =~= table@);
        let total: u64 = sorted.len() as u64;
        let ghost ranked = pairs(sorted@);
        let mut k: usize = 0;
        while k < sorted.len()
            invariant
                k <= sorted.len(),
                ranked == pairs(sorted@),
                wanted@ == address@,
                rank_of(ranked, address@, 0) == rank_of(ranked, address@, k as int),
            decreases sorted.len() - k,
        {
            assert(ranked[k as int] == (sorted@[k as int].0@, sorted@[k as int].1@));
            if sorted[k].0 == wanted {
                return (k as u64 + 1, total);
            }
            k += 1;
        }
        (0, total)
    }

    /// A page of the tokens of the collection `tick`, in the order of
    /// their ids as strings.
    pub fn list_zrc721_tokens(&self, tick: &str, page: usize, limit: usize) -> (r: Vec<
        Zrc721Token,
    >)
        ensures
            token_views(r@) == page_of(
                ranked_tokens(tokens_in(self@.nfts, tick@), false),
                page_offset(page, limit),
                limit as int,
            ),
    {
        let wanted = tick.to_owned();
        let table = self.nfts_table();
        let mut sorted: Vec<Zrc721Token> = Vec::new();
        let mut i: usize = 0;
        assert(table@.take(0) =~= Seq::<((Text, Text), Zrc721TokenView)>::empty());
        assert(token_views(sorted@) =~= ranked_tokens(tokens_in(table@.take(0), tick@), false));
        while i < table.len()
            invariant
                i <= table@.len(),
                wanted@ == tick@,
                token_views(sorted@) == ranked_tokens(
                    tokens_in(table@.take(i as int), tick@),
                    false,
                ),
            decreases table@.len() - i,
        {
            let key = table.key_at(i);
            assert(table@.take(i as int + 1).drop_last() =~= table@.take(i as int));
            assert(table@.take(i as int + 1).last() == table@[i as int]);
            if key.0 == wanted {
                let ghost found = tokens_in(table@.take(i as int + 1), tick@);
                assert(found.drop_last() =~= tokens_in(table@.take(i as int), tick@));
                place_token(&mut sorted, table.value_at(i).duplicate(), false);
            }
            i += 1;
        }
        assert(table@.take(table@.len() as int) =~= table@);
        page_tokens(&sorted, offset_of(page, limit), limit)
    }

    /// A page of the tokens that `address` owns, in the order of their
    /// collections and then of their ids as strings.
    pub fn list_zrc721_tokens_by_address(&self, address: &str, page: usize, limit: usize) -> (r:
        Vec<Zrc721Token>)
        ensures
            token_views(r@) == page_of(
                ranked_tokens(tokens_owned(self@.nfts, address@), true),
                page_offset(page, limit),
                limit as int,
            ),
    {
        let wanted = address.to_owned();
        let table = self.nfts_table();
        let mut sorted: Vec<Zrc721Token> = Vec::new();
        let mut i: usize = 0;
        assert(table@.take(0) =~= Seq::<((Text, Text), Zrc721TokenView)>::empty());
        assert(token_views(sorted@) =~= ranked_tokens(
            tokens_owned(table@.take(0), address@),
            true,
        ));
        while i < table.len()
            invariant
                i <= table@.len(),
                wanted@ == address@,
                token_views(sorted@) == ranked_tokens(
                    tokens_owned(table@.take(i as int), address@),
                    true,
                ),
            decreases table@.len() - i,
        {
            let token = table.value_at(i);
            assert(table@.take(i as int + 1).drop_last() =~= table@.take(i as int));
            assert(table@.take(i as int + 1).last() == table@[i as int]);
            if token.owner == wanted {
                let ghost found = tokens_owned(table@.take(i as int + 1), address@);
                assert(found.drop_last() =~= tokens_owned(table@.take(i as int), address@));
                place_token(&mut sorted, token.duplicate(), true);
            }
            i += 1;
        }
        assert(table@.take(table@.len() as int) =~= table@);
        page_tokens(&sorted, offset_of(page, limit), limit)
    }

    /// Whether the supply of `tick` matches what its holders hold and what
    /// was burned; none for a token that was not deployed or whose sums do
    /// not fit 128 bits.
    pub fn token_integrity(&self, tick: &str) -> (r: Option<Integrity>)
        requires
            self.wf(),
        ensures
            match r {
                Some(i) => {
                    let t = lowercase_of(tick@);
                    &&& crate::table::lookup(self@.tokens, t) is Some
                    &&& i.supply == self@.supply_of(t)
                    &&& i.sum_overall == sum_overall(self@.balances, t)
                    &&& i.sum_available == sum_available(self@.balances, t)
                    &&& i.burned == self@.burned_of(t)
                    &&& i.holders == holders_of(self@.balances, t).len()
                    &&& i.holders_positive == positive_holders_of(self@.balances, t).len()
                    &&& i.consistent == (self@.supply_of(t) == sum_overall(self@.balances, t)
                        + self@.burned_of(t))
                },
                None => {
                    let t = lowercase_of(tick@);
                    ||| crate::table::lookup(self@.tokens, t) is None
                    ||| sum_overall(self@.balances, t) > u128::MAX
                    ||| sum_available(self@.balances, t) > u128::MAX
                },
            },
    {
        let lower = lowercase(tick);
        let info = match self.get_token_info(lower.as_str()) {
            Some(i) => i,
            None => {
                return None;
            },
        };
        let sums = match self.tick_sums(&lower) {
            Ok(s) => s,
            Err(_) => {
                return None;
            },
        };
        let burned: u128 = self.get_burned(lower.as_str());
        let consistent = match sums.overall.checked_add(burned) {
            Some(total) => info.supply == total,
            None => false,
        };
        Some(
            Integrity {
                supply: info.supply,
                sum_overall: sums.overall,
                sum_available: sums.available,
                burned,
                holders: sums.holders,
                holders_positive: sums.holders_positive,
                consistent,
            },
        )
    }

    /// How far the follower is, and whether it is synced: the core height
    /// is known and at most one block behind the known tip.
    pub fn health(&self) -> (r: Health)
        requires
            self.wf(),
        ensures
            r.core_height == crate::table::lookup(self@.status, "core_height"@),
            r.chain_tip == crate::table::lookup(self@.status, "chain_tip"@),
            r.zrc20_height == crate::table::lookup(self@.status, "zrc20_height"@),
            r.zrc721_height == crate::table::lookup(self@.status, "zrc721_height"@),
            r.names_height == crate::table::lookup(self@.status, "names_height"@),
            r.synced == (r.core_height is Some && r.chain_tip is Some && r.core_height->0
                >= r.chain_tip->0 - 1),
    {
        let core_height = self.get_status("core_height");
        let chain_tip = self.get_status("chain_tip");
        let synced = match (core_height, chain_tip) {
            (Some(h), Some(t)) => t == 0 || h >= t - 1,
            _ => false,
        };
        Health {
            core_height,
            chain_tip,
            zrc20_height: self.get_status("zrc20_height"),
            zrc721_height: self.get_status("zrc721_height"),
            names_height: self.get_status("names_height"),
            synced,
        }
    }
}

} // verus!
