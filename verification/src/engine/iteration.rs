//! The orders in which the instruments of the exchange can be gone through.
use crate::engine::order::Stock;
use std::collections::BTreeMap;
use vstd::prelude::*;
use vstd::string::StringExecFns;
use vstd::string::StringSliceAdditionalSpecFns;

verus! {

/// The order in which the instruments are gone through: by id, or by ticker
/// and among equal tickers by id.
#[derive(Debug, Clone, Copy, PartialEq, Eq, Structural)]
pub enum InstrumentIteration {
    IdAsc,
    TickerAsc,
}

/// The first place at which two texts differ, or where one of them ends: `k`
/// is that place where they agree before it and do not go on alike.
pub open spec fn part_at(a: Seq<u8>, b: Seq<u8>, k: int) -> bool {
    &&& 0 <= k <= a.len()
    &&& k <= b.len()
    &&& forall|i: int| 0 <= i < k ==> a[i] == b[i]
    &&& k == a.len() || k == b.len() || a[k] != b[k]
}

/// Whether the text `a` comes before the text `b`, byte by byte: where they
/// first differ `a` has the smaller byte, or `a` ends there and `b` goes on.
pub open spec fn bytes_before(a: Seq<u8>, b: Seq<u8>) -> bool {
    exists|k: int| #[trigger]
        part_at(a, b, k) && k < b.len() && (k == a.len() || a[k] < b[k])
}

/// The ticker of an instrument as bytes.
pub open spec fn ticker_bytes(stock: Stock) -> Seq<u8> {
    vstd::utf8::encode_utf8(stock.ticker@)
}

/// Whether the instrument `x` comes before the instrument `y` by ticker: its
/// ticker comes first, or the tickers are the same and its id is smaller.
pub open spec fn ticker_before(stocks: Map<u128, Stock>, x: u128, y: u128) -> bool {
    ||| bytes_before(ticker_bytes(stocks[x]), ticker_bytes(stocks[y]))
    ||| ticker_bytes(stocks[x]) == ticker_bytes(stocks[y]) && x < y
}

/// Whether `s` holds the ids of the instruments, by ticker.
pub open spec fn lists_by_ticker(s: Seq<u128>, stocks: Map<u128, Stock>) -> bool {
    &&& forall|i: int, j: int| 0 <= i < j < s.len() ==> ticker_before(stocks, s[i], s[j])
    &&& forall|k: u128| stocks.contains_key(k) <==> s.contains(k)
}

/// The ids of the instruments, by ticker.
pub open spec fn ids_by_ticker(stocks: Map<u128, Stock>) -> Seq<u128> {
    choose|s: Seq<u128>| lists_by_ticker(s, stocks)
}

/// Two texts part at one place only.
pub proof fn lemma_part_unique(a: Seq<u8>, b: Seq<u8>, k: int, l: int)
    requires
        part_at(a, b, k),
        part_at(a, b, l),
    ensures
        k == l,
{
    if k < l {
        assert(a[k] == b[k]);
    }
    if l < k {
        assert(a[l] == b[l]);
    }
}

/// Two texts part somewhere.
pub proof fn lemma_part_exists(a: Seq<u8>, b: Seq<u8>, from: int) -> (k: int)
    requires
        0 <= from <= a.len(),
        from <= b.len(),
        forall|i: int| 0 <= i < from ==> a[i] == b[i],
    ensures
        part_at(a, b, k),
    decreases a.len() - from,
{
    if from == a.len() || from == b.len() || a[from] != b[from] {
        from
    } else {
        lemma_part_exists(a, b, from + 1)
    }
}

/// Of two texts one comes before the other, or they are the same.
pub proof fn lemma_bytes_total(a: Seq<u8>, b: Seq<u8>)
    ensures
        bytes_before(a, b) || bytes_before(b, a) || a == b,
        !(bytes_before(a, b) && bytes_before(b, a)),
        !bytes_before(a, a),
{
    let k = lemma_part_exists(a, b, 0);
    assert(part_at(b, a, k));
    if k == a.len() && k == b.len() {
        assert(a =~= b);
    }
    if bytes_before(a, b) && bytes_before(b, a) {
        let x = choose|x: int| #[trigger] part_at(a, b, x) && x < b.len() && (x == a.len() || a[x] < b[x]);
        let y = choose|y: int| #[trigger] part_at(b, a, y) && y < a.len() && (y == b.len() || b[y] < a[y]);
        assert(part_at(a, b, y));
        lemma_part_unique(a, b, x, y);
    }
    if bytes_before(a, a) {
        let x = choose|x: int| #[trigger] part_at(a, a, x) && x < a.len() && (x == a.len() || a[x] < a[x]);
        assert(part_at(a, a, a.len() as int));
        lemma_part_unique(a, a, x, a.len() as int);
    }
}

/// A text that comes before a second, which comes before a third, comes
/// before the third.
pub proof fn lemma_bytes_transitive(a: Seq<u8>, b: Seq<u8>, c: Seq<u8>)
    requires
        bytes_before(a, b),
        bytes_before(b, c),
    ensures
        bytes_before(a, c),
{
    let x = choose|x: int| #[trigger] part_at(a, b, x) && x < b.len() && (x == a.len() || a[x] < b[x]);
    let y = choose|y: int| #[trigger] part_at(b, c, y) && y < c.len() && (y == b.len() || b[y] < c[y]);
    let k = if x <= y {
        x
    } else {
        y
    };
    assert(part_at(a, c, k)) by {
        assert forall|i: int| 0 <= i < k implies a[i] == c[i] by {
            assert(a[i] == b[i] && b[i] == c[i]);
        }
        if k < a.len() && k < c.len() {
            if x < y {
                assert(b[x] == c[x]);
            } else if y < x {
                assert(a[y] == b[y]);
            }
        }
    }
    if x < y {
        assert(b[x] == c[x]);
    } else if y < x {
        assert(a[y] == b[y]);
    }
}

/// The order by ticker does not put an instrument before itself, and goes
/// on from one instrument over a second to a third.
pub proof fn lemma_ticker_order(stocks: Map<u128, Stock>, x: u128, y: u128, z: u128)
    ensures
        !ticker_before(stocks, x, x),
        ticker_before(stocks, x, y) && ticker_before(stocks, y, z) ==> ticker_before(stocks, x, z),
        x == y || ticker_before(stocks, x, y) || ticker_before(stocks, y, x),
{
    let a = ticker_bytes(stocks[x]);
    let b = ticker_bytes(stocks[y]);
    let c = ticker_bytes(stocks[z]);
    lemma_bytes_total(a, a);
    lemma_bytes_total(a, b);
    if ticker_before(stocks, x, y) && ticker_before(stocks, y, z) {
        if bytes_before(a, b) && bytes_before(b, c) {
            lemma_bytes_transitive(a, b, c);
        }
    }
}

/// Two sequences that hold the same ids by ticker are the same sequence.
pub proof fn lemma_by_ticker_unique(stocks: Map<u128, Stock>, a: Seq<u128>, b: Seq<u128>)
    requires
        forall|i: int, j: int| 0 <= i < j < a.len() ==> ticker_before(stocks, a[i], a[j]),
        forall|i: int, j: int| 0 <= i < j < b.len() ==> ticker_before(stocks, b[i], b[j]),
        forall|k: u128| a.contains(k) <==> b.contains(k),
    ensures
        a == b,
    decreases a.len(),
{
    if a.len() == 0 {
        if b.len() > 0 {
            assert(b.contains(b[0]));
        }
        assert(a =~= b);
    } else {
        assert(a.contains(a[0]));
        let j = b.index_of(a[0]);
        assert(b.contains(b[0]));
        let i = a.index_of(b[0]);
        lemma_ticker_order(stocks, a[0], b[0], a[0]);
        assert(a[0] == b[0]);
        let x = a.drop_first();
        let y = b.drop_first();
        assert forall|k: u128| x.contains(k) <==> y.contains(k) by {
            lemma_ticker_order(stocks, a[0], a[0], a[0]);
            if x.contains(k) {
                let n = x.index_of(k);
                assert(a[n + 1] == k);
                assert(ticker_before(stocks, a[0], a[n + 1]));
                assert(a.contains(k));
                let m = b.index_of(k);
                assert(m != 0);
                assert(y[m - 1] == k);
            }
            if y.contains(k) {
                let n = y.index_of(k);
                assert(b[n + 1] == k);
                assert(ticker_before(stocks, b[0], b[n + 1]));
                assert(b.contains(k));
                let m = a.index_of(k);
                assert(m != 0);
                assert(x[m - 1] == k);
            }
        }
        assert forall|i: int, j: int| 0 <= i < j < x.len() implies ticker_before(
            stocks,
            x[i],
            x[j],
        ) by {
            assert(x[i] == a[i + 1] && x[j] == a[j + 1]);
        }
        assert forall|i: int, j: int| 0 <= i < j < y.len() implies ticker_before(
            stocks,
            y[i],
            y[j],
        ) by {
            assert(y[i] == b[i + 1] && y[j] == b[j + 1]);
        }
        lemma_by_ticker_unique(stocks, x, y);
        assert(a =~= seq![a[0]] + x);
        assert(b =~= seq![b[0]] + y);
    }
}

/// Whether the ticker of `x` comes before that of `y`, byte by byte.
pub fn ticker_comes_before(x: &Stock, y: &Stock) -> (before: bool)
    ensures
        before == bytes_before(ticker_bytes(*x), ticker_bytes(*y)),
{
    let a = x.ticker.as_str().as_bytes();
    let b = y.ticker.as_str().as_bytes();
    let mut k: usize = 0;
    while k < a.len() && k < b.len() && a[k] == b[k]
        invariant
            k <= a.len(),
            k <= b.len(),
            a@ == ticker_bytes(*x),
            b@ == ticker_bytes(*y),
            forall|i: int| 0 <= i < k ==> a@[i] == b@[i],
        decreases a.len() - k,
    {
        k = k + 1;
    }
    assert(part_at(a@, b@, k as int));
    let before = k < b.len() && (k == a.len() || a[k] < b[k]);
    proof {
        if !before && bytes_before(a@, b@) {
            let x = choose|x: int| #[trigger]
                part_at(a@, b@, x) && x < b@.len() && (x == a@.len() || a@[x] < b@[x]);
            lemma_part_unique(a@, b@, x, k as int);
        }
    }
    before
}

impl InstrumentIteration {
    /// The name of the order.
    pub open spec fn text(self) -> Seq<char> {
        match self {
            InstrumentIteration::IdAsc => "id-asc"@,
            InstrumentIteration::TickerAsc => "ticker-asc"@,
        }
    }

    /// The order that a name stands for, if it is the name of one.
    pub open spec fn of_text(text: Seq<char>) -> Option<InstrumentIteration> {
        if text == "id-asc"@ {
            Some(InstrumentIteration::IdAsc)
        } else if text == "ticker-asc"@ {
            Some(InstrumentIteration::TickerAsc)
        } else {
            None
        }
    }

    pub fn to_string(&self) -> (s: String)
        ensures
            s@ == self.text(),
    {
        match self {
            InstrumentIteration::IdAsc => String::from_str("id-asc"),
            InstrumentIteration::TickerAsc => String::from_str("ticker-asc"),
        }
    }

    /// Reads the name of an order: `id-asc` or `ticker-asc`.
    pub fn parse(text: &str) -> (r: Option<InstrumentIteration>)
        ensures
            r == Self::of_text(text@),
    {
        let given = String::from_str(text);
        if given == String::from_str("id-asc") {
            Some(InstrumentIteration::IdAsc)
        } else if given == String::from_str("ticker-asc") {
            Some(InstrumentIteration::TickerAsc)
        } else {
            None
        }
    }
}

/// The ids of the instruments by ticker, and among equal tickers by id.
pub fn sorted_by_ticker(stocks: &BTreeMap<u128, Stock>) -> (ids: Vec<u128>)
    ensures
        ids@ == ids_by_ticker(stocks@),
        lists_by_ticker(ids@, stocks@),
{
    let by_id = crate::engine::keys::sorted_ids(stocks);
    let mut ids: Vec<u128> = Vec::new();
    let mut i: usize = 0;
    while i < by_id.len()
        invariant
            i <= by_id.len(),
            crate::engine::keys::ascending(by_id@),
            forall|k: u128| stocks@.contains_key(k) <==> by_id@.contains(k),
            ids@.len() == i,
            forall|a: int, b: int|
                0 <= a < b < ids@.len() ==> ticker_before(stocks@, ids@[a], ids@[b]),
            forall|k: u128| ids@.contains(k) <==> by_id@.subrange(0, i as int).contains(k),
            forall|j: int| 0 <= j < ids@.len() ==> stocks@.contains_key(#[trigger] ids@[j]),
        decreases by_id.len() - i,
    {
        let id = by_id[i];
        assert(by_id@.contains(id));
        let stock = stocks.get(&id).unwrap();
        let mut at: usize = ids.len();
        while at > 0 && ticker_comes_before(stock, stocks.get(&ids[at - 1]).unwrap())
            invariant
                at <= ids@.len(),
                ids@.len() == i,
                i < by_id.len(),
                stocks@.contains_key(id),
                *stock == stocks@[id],
                forall|j: int| 0 <= j < ids@.len() ==> stocks@.contains_key(#[trigger] ids@[j]),
                forall|j: int|
                    at <= j < ids@.len() ==> bytes_before(
                        ticker_bytes(stocks@[id]),
                        ticker_bytes(stocks@[#[trigger] ids@[j]]),
                    ),
            decreases at,
        {
            at = at - 1;
        }
        proof {
            let was = ids@;
            let now = was.insert(at as int, id);
            let front = by_id@.subrange(0, i as int);
            assert forall|j: int| 0 <= j < was.len() implies was[j] < id && stocks@.contains_key(
                #[trigger] was[j],
            ) by {
                assert(was.contains(was[j]));
                assert(front.contains(was[j]));
                let n = front.index_of(was[j]);
                assert(by_id@[n] == was[j]);
                assert(by_id@.contains(was[j]));
            }
            assert forall|j: int| 0 <= j < at implies ticker_before(stocks@, #[trigger] was[j], id) by {
                let last = was[at - 1];
                lemma_bytes_total(ticker_bytes(stocks@[id]), ticker_bytes(stocks@[last]));
                assert(ticker_before(stocks@, last, id));
                if j < at - 1 {
                    lemma_ticker_order(stocks@, was[j], last, id);
                }
            }
            assert forall|a: int, b: int| 0 <= a < b < now.len() implies ticker_before(
                stocks@,
                now[a],
                now[b],
            ) by {
                if b < at {
                    assert(now[a] == was[a] && now[b] == was[b]);
                } else if b == at {
                    assert(now[a] == was[a]);
                } else if a < at {
                    assert(now[a] == was[a] && now[b] == was[b - 1]);
                } else if a == at {
                    assert(now[b] == was[b - 1]);
                } else {
                    assert(now[a] == was[a - 1] && now[b] == was[b - 1]);
                }
            }
            let next = by_id@.subrange(0, i + 1);
            assert forall|j: int| 0 <= j < now.len() implies stocks@.contains_key(
                #[trigger] now[j],
            ) by {
                if j < at {
                    assert(now[j] == was[j]);
                } else if j > at {
                    assert(now[j] == was[j - 1]);
                }
            }
            assert forall|k: u128| now.contains(k) <==> next.contains(k) by {
                if now.contains(k) {
                    let n = now.index_of(k);
                    if n == at {
                        assert(next[i as int] == k);
                    } else {
                        let m = if n < at {
                            n
                        } else {
                            n - 1
                        };
                        assert(was[m] == k);
                        assert(was.contains(k));
                        let f = front.index_of(k);
                        assert(next[f] == k);
                    }
                }
                if next.contains(k) {
                    let n = next.index_of(k);
                    if n == i {
                        assert(now[at as int] == k);
                    } else {
                        assert(front[n] == k);
                        assert(front.contains(k));
                        assert(was.contains(k));
                        let m = was.index_of(k);
                        assert(was[m] == k);
                        if m < at {
                            assert(now[m] == k);
                        } else {
                            assert(now[m + 1] == k);
                        }
                    }
                }
            }
        }
        ids.insert(at, id);
        i = i + 1;
    }
    proof {
        assert(by_id@.subrange(0, i as int) =~= by_id@);
        assert(lists_by_ticker(ids@, stocks@));
        lemma_by_ticker_unique(stocks@, ids@, ids_by_ticker(stocks@));
    }
    ids
}

} // verus!
