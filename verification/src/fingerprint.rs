//! Query fingerprinting: a cache key is the lowercase hex encoding of the
//! SHA-256 digest of a canonical byte encoding of the query's semantically
//! relevant fields. The encoding is injective, so two queries collide only if
//! the digest itself collides.

use vstd::prelude::*;
use crate::options::{Category, MovieOptions, Order, ProviderSet, SearchOptions, SortColumn};
use sha2::Digest;

verus! {

/// Cache key for search operations: the kind of search and the digest string.
#[derive(Eq, Hash, Debug)]
pub enum CacheKey {
    Search(String),
    MovieSearch(String),
}

impl View for CacheKey {
    /// `true` marks a movie search; the sequence is the digest string.
    type V = (bool, Seq<char>);

    open spec fn view(&self) -> (bool, Seq<char>) {
        match self {
            CacheKey::Search(h) => (false, h@),
            CacheKey::MovieSearch(h) => (true, h@),
        }
    }
}

impl vstd::std_specs::cmp::PartialEqSpecImpl for CacheKey {
    open spec fn obeys_eq_spec() -> bool {
        true
    }

    open spec fn eq_spec(&self, other: &CacheKey) -> bool {
        self@ == other@
    }
}

impl PartialEq for CacheKey {
    fn eq(&self, other: &Self) -> (r: bool)
        ensures
            r == (self@ == other@),
    {
        match (self, other) {
            (CacheKey::Search(a), CacheKey::Search(b)) => *a == *b,
            (CacheKey::MovieSearch(a), CacheKey::MovieSearch(b)) => *a == *b,
            _ => false,
        }
    }
}

impl Clone for CacheKey {
    fn clone(&self) -> (r: Self)
        ensures
            r == *self,
    {
        match self {
            CacheKey::Search(h) => CacheKey::Search(h.clone()),
            CacheKey::MovieSearch(h) => CacheKey::MovieSearch(h.clone()),
        }
    }
}

/// The `k` little-endian base-256 digits of `n`.
pub open spec fn le_bytes(n: nat, k: nat) -> Seq<u8>
    decreases k,
{
    if k == 0 {
        Seq::empty()
    } else {
        seq![(n % 256) as u8] + le_bytes(n / 256, (k - 1) as nat)
    }
}

/// Each character as the four little-endian bytes of its code point.
pub open spec fn char_bytes(q: Seq<char>) -> Seq<u8>
    decreases q.len(),
{
    if q.len() == 0 {
        Seq::empty()
    } else {
        le_bytes((q[0] as u32) as nat, 4) + char_bytes(q.drop_first())
    }
}

pub open spec fn category_tag(c: Category) -> u8 {
    match c {
        Category::All => 0,
        Category::Audio => 1,
        Category::Video => 2,
        Category::Applications => 3,
        Category::Games => 4,
        Category::Other => 5,
    }
}

pub open spec fn sort_tag(s: SortColumn) -> u8 {
    match s {
        SortColumn::Added => 0,
        SortColumn::Size => 1,
        SortColumn::Seeders => 2,
        SortColumn::Leechers => 3,
    }
}

pub open spec fn order_tag(o: Order) -> u8 {
    match o {
        Order::Ascending => 0,
        Order::Descending => 1,
    }
}

pub open spec fn bool_tag(b: bool) -> u8 {
    if b {
        1
    } else {
        0
    }
}

/// Canonical byte encoding of a plain search: the length-prefixed query
/// characters followed by one fixed-width tag per remaining field.
pub open spec fn search_encoding(
    q: Seq<char>,
    c: Category,
    s: SortColumn,
    o: Order,
    p: ProviderSet,
) -> Seq<u8> {
    le_bytes(q.len(), 8) + char_bytes(q) + seq![
        category_tag(c),
        sort_tag(s),
        order_tag(o),
        bool_tag(p.piratebay),
        bool_tag(p.bitsearch),
        bool_tag(p.yts),
    ]
}

/// Canonical byte encoding of a movie search: the length-prefixed identifier,
/// the optional length-prefixed title, then one fixed-width tag per field.
pub open spec fn movie_encoding(
    imdb: Seq<char>,
    title: Option<Seq<char>>,
    s: SortColumn,
    o: Order,
    p: ProviderSet,
) -> Seq<u8> {
    le_bytes(imdb.len(), 8) + char_bytes(imdb) + (match title {
        Some(t) => seq![1u8] + le_bytes(t.len(), 8) + char_bytes(t),
        None => seq![0u8],
    }) + seq![
        sort_tag(s),
        order_tag(o),
        bool_tag(p.piratebay),
        bool_tag(p.bitsearch),
        bool_tag(p.yts),
    ]
}

/// The SHA-256 digest of a byte sequence. The digest has no short
/// description; it is named here and pinned down only by the trusted wrapper
/// below.
pub uninterp spec fn sha256_of(input: Seq<u8>) -> Seq<u8>;

pub open spec fn hex_digit(d: int) -> char {
    if d == 0 {
        '0'
    } else if d == 1 {
        '1'
    } else if d == 2 {
        '2'
    } else if d == 3 {
        '3'
    } else if d == 4 {
        '4'
    } else if d == 5 {
        '5'
    } else if d == 6 {
        '6'
    } else if d == 7 {
        '7'
    } else if d == 8 {
        '8'
    } else if d == 9 {
        '9'
    } else if d == 10 {
        'a'
    } else if d == 11 {
        'b'
    } else if d == 12 {
        'c'
    } else if d == 13 {
        'd'
    } else if d == 14 {
        'e'
    } else {
        'f'
    }
}

/// Lowercase hex encoding: two digits per byte, high digit first.
pub open spec fn hex_of(bytes: Seq<u8>) -> Seq<char> {
    Seq::new(
        2 * bytes.len(),
        |i: int|
            if i % 2 == 0 {
                hex_digit(bytes[i / 2] as int / 16)
            } else {
                hex_digit(bytes[i / 2] as int % 16)
            },
    )
}

/// Relies on sha2::Sha256 (via the Digest trait): the digest is 32 bytes and
/// depends on the input bytes alone.
#[verifier::external_body]
fn sha256_digest(input: &Vec<u8>) -> (r: Vec<u8>)
    ensures
        r@ == sha256_of(input@),
        r@.len() == 32,
{
    sha2::Sha256::digest(input.as_slice()).to_vec()
}

/// Relies on hex::encode: lowercase hex, two digits per byte, high digit
/// first.
#[verifier::external_body]
fn hex_encode(bytes: &Vec<u8>) -> (r: String)
    ensures
        r@ == hex_of(bytes@),
{
    hex::encode(bytes.as_slice())
}

/// The digest string a plain search is keyed by.
pub open spec fn search_fingerprint(
    q: Seq<char>,
    c: Category,
    s: SortColumn,
    o: Order,
    p: ProviderSet,
) -> Seq<char> {
    hex_of(sha256_of(search_encoding(q, c, s, o, p)))
}

/// The digest string a movie search is keyed by.
pub open spec fn movie_fingerprint(
    imdb: Seq<char>,
    title: Option<Seq<char>>,
    s: SortColumn,
    o: Order,
    p: ProviderSet,
) -> Seq<char> {
    hex_of(sha256_of(movie_encoding(imdb, title, s, o, p)))
}

/// Appends the `count` little-endian base-256 digits of `n`.
fn push_le_bytes(out: &mut Vec<u8>, n: u64, count: usize)
    ensures
        final(out)@ == old(out)@ + le_bytes(n as nat, count as nat),
{
    let mut m: u64 = n;
    let mut i: usize = 0;
    while i < count
        invariant
            i <= count,
            old(out)@ + le_bytes(n as nat, count as nat) == out@ + le_bytes(
                m as nat,
                (count - i) as nat,
            ),
        decreases count - i,
    {
        proof {
            assert(le_bytes(m as nat, (count - i) as nat) == seq![(m as nat % 256) as u8]
                + le_bytes(m as nat / 256, (count - i - 1) as nat));
            assert((out@ + seq![(m % 256) as u8]) + le_bytes((m / 256) as nat, (count - i
                - 1) as nat) =~= out@ + le_bytes(m as nat, (count - i) as nat));
        }
        out.push((m % 256) as u8);
        m = m / 256;
        i = i + 1;
    }
    proof {
        assert(le_bytes(m as nat, 0) =~= Seq::<u8>::empty());
        assert(out@ + le_bytes(m as nat, 0) =~= out@);
    }
}

proof fn lemma_char_bytes_push(q: Seq<char>, c: char)
    ensures
        char_bytes(q.push(c)) == char_bytes(q) + le_bytes((c as u32) as nat, 4),
    decreases q.len(),
{
    if q.len() == 0 {
        assert(q.push(c).drop_first() =~= Seq::<char>::empty());
        assert(q.push(c)[0] == c);
        assert(char_bytes(q.push(c)) == le_bytes((c as u32) as nat, 4) + char_bytes(Seq::<char>::empty()));
        assert(le_bytes((c as u32) as nat, 4) + Seq::<u8>::empty() =~= le_bytes((c as u32) as nat, 4));
        assert(char_bytes(q) + le_bytes((c as u32) as nat, 4) =~= le_bytes((c as u32) as nat, 4));
    } else {
        lemma_char_bytes_push(q.drop_first(), c);
        assert(q.push(c).drop_first() =~= q.drop_first().push(c));
        assert(q.push(c)[0] == q[0]);
        assert(char_bytes(q.push(c)) == le_bytes((q[0] as u32) as nat, 4) + (char_bytes(q.drop_first())
            + le_bytes((c as u32) as nat, 4)));
        assert(le_bytes((q[0] as u32) as nat, 4) + (char_bytes(q.drop_first()) + le_bytes((c as u32) as nat, 4)) =~= (
        le_bytes((q[0] as u32) as nat, 4) + char_bytes(q.drop_first())) + le_bytes((c as u32) as nat, 4));
    }
}

/// Appends the four-byte encoding of each character of `s`.
fn push_chars(out: &mut Vec<u8>, s: &str)
    ensures
        final(out)@ == old(out)@ + char_bytes(s@),
{
    let len: usize = s.unicode_len();
    let mut i: usize = 0;
    while i < len
        invariant
            i <= len,
            len == s@.len(),
            out@ == old(out)@ + char_bytes(s@.take(i as int)),
        decreases len - i,
    {
        let c: char = s.get_char(i);
        push_le_bytes(out, (c as u32) as u64, 4);
        proof {
            lemma_char_bytes_push(s@.take(i as int), c);
            assert(s@.take(i as int).push(c) =~= s@.take(i + 1 as int));
            assert((old(out)@ + char_bytes(s@.take(i as int))) + le_bytes((c as u32) as nat, 4) =~= old(
                out,
            )@ + char_bytes(s@.take(i + 1 as int)));
        }
        i = i + 1;
    }
    proof {
        assert(s@.take(len as int) =~= s@);
    }
}

fn category_byte(c: Category) -> (r: u8)
    ensures
        r == category_tag(c),
{
    match c {
        Category::All => 0,
        Category::Audio => 1,
        Category::Video => 2,
        Category::Applications => 3,
        Category::Games => 4,
        Category::Other => 5,
    }
}

fn sort_byte(s: SortColumn) -> (r: u8)
    ensures
        r == sort_tag(s),
{
    match s {
        SortColumn::Added => 0,
        SortColumn::Size => 1,
        SortColumn::Seeders => 2,
        SortColumn::Leechers => 3,
    }
}

fn order_byte(o: Order) -> (r: u8)
    ensures
        r == order_tag(o),
{
    match o {
        Order::Ascending => 0,
        Order::Descending => 1,
    }
}

fn bool_byte(b: bool) -> (r: u8)
    ensures
        r == bool_tag(b),
{
    if b {
        1
    } else {
        0
    }
}

/// Builds the canonical byte encoding of a plain search.
#[verifier::rlimit(50)]
fn encode_search(search_options: &SearchOptions, providers: &ProviderSet) -> (r: Vec<u8>)
    ensures
        r@ == search_encoding(
            search_options.spec_query(),
            search_options.spec_category(),
            search_options.spec_sort(),
            search_options.spec_order(),
            *providers,
        ),
{
    let mut out: Vec<u8> = Vec::new();
    let q: &String = search_options.query();
    push_le_bytes(&mut out, q.as_str().unicode_len() as u64, 8);
    push_chars(&mut out, q.as_str());
    out.push(category_byte(search_options.category()));
    out.push(sort_byte(search_options.sort()));
    out.push(order_byte(search_options.order()));
    out.push(bool_byte(providers.piratebay));
    out.push(bool_byte(providers.bitsearch));
    out.push(bool_byte(providers.yts));
    proof {
        assert(out@ =~= search_encoding(
            search_options.spec_query(),
            search_options.spec_category(),
            search_options.spec_sort(),
            search_options.spec_order(),
            *providers,
        ));
    }
    out
}

/// Builds the canonical byte encoding of a movie search.
#[verifier::rlimit(50)]
fn encode_movie_search(movie_options: &MovieOptions, providers: &ProviderSet) -> (r: Vec<u8>)
    ensures
        r@ == movie_encoding(
            movie_options.spec_imdb(),
            movie_options.spec_title(),
            movie_options.spec_sort(),
            movie_options.spec_order(),
            *providers,
        ),
{
    let mut out: Vec<u8> = Vec::new();
    let imdb: &String = movie_options.imdb();
    push_le_bytes(&mut out, imdb.as_str().unicode_len() as u64, 8);
    push_chars(&mut out, imdb.as_str());
    match movie_options.title() {
        Some(t) => {
            out.push(1);
            push_le_bytes(&mut out, t.as_str().unicode_len() as u64, 8);
            push_chars(&mut out, t.as_str());
        },
        None => {
            out.push(0);
        },
    }
    out.push(sort_byte(movie_options.sort()));
    out.push(order_byte(movie_options.order()));
    out.push(bool_byte(providers.piratebay));
    out.push(bool_byte(providers.bitsearch));
    out.push(bool_byte(providers.yts));
    proof {
        assert(out@ =~= movie_encoding(
            movie_options.spec_imdb(),
            movie_options.spec_title(),
            movie_options.spec_sort(),
            movie_options.spec_order(),
            *providers,
        ));
    }
    out
}

impl CacheKey {
    /// Generate a cache key for search options. The key is a deterministic
    /// function of the query fields and the provider set.
    pub fn from_search(search_options: &SearchOptions, providers: &ProviderSet) -> (r: Self)
        ensures
            r@ == (
                false,
                search_fingerprint(
                    search_options.spec_query(),
                    search_options.spec_category(),
                    search_options.spec_sort(),
                    search_options.spec_order(),
                    *providers,
                ),
            ),
    {
        let bytes = encode_search(search_options, providers);
        let digest = sha256_digest(&bytes);
        CacheKey::Search(hex_encode(&digest))
    }

    /// Generate a cache key for movie search options. The key is a
    /// deterministic function of the identifier fields and the provider set.
    pub fn from_movie_search(movie_options: &MovieOptions, providers: &ProviderSet) -> (r: Self)
        ensures
            r@ == (
                true,
                movie_fingerprint(
                    movie_options.spec_imdb(),
                    movie_options.spec_title(),
                    movie_options.spec_sort(),
                    movie_options.spec_order(),
                    *providers,
                ),
            ),
    {
        let bytes = encode_movie_search(movie_options, providers);
        let digest = sha256_digest(&bytes);
        CacheKey::MovieSearch(hex_encode(&digest))
    }
}

/// `256^k`.
pub open spec fn pow256(k: nat) -> nat
    decreases k,
{
    if k == 0 {
        1
    } else {
        256 * pow256((k - 1) as nat)
    }
}

pub proof fn lemma_le_bytes_len(n: nat, k: nat)
    ensures
        le_bytes(n, k).len() == k,
    decreases k,
{
    if k > 0 {
        lemma_le_bytes_len(n / 256, (k - 1) as nat);
    }
}

/// The little-endian digits determine the number below `256^k`.
pub proof fn lemma_le_bytes_injective(n1: nat, n2: nat, k: nat)
    requires
        n1 < pow256(k),
        n2 < pow256(k),
        le_bytes(n1, k) == le_bytes(n2, k),
    ensures
        n1 == n2,
    decreases k,
{
    if k == 0 {
        assert(n1 == 0 && n2 == 0);
    } else {
        let q1 = n1 / 256;
        let q2 = n2 / 256;
        let r1 = n1 % 256;
        let r2 = n2 % 256;
        vstd::arithmetic::div_mod::lemma_fundamental_div_mod(n1 as int, 256);
        vstd::arithmetic::div_mod::lemma_fundamental_div_mod(n2 as int, 256);
        assert(le_bytes(n1, k)[0] == (r1 as u8) && le_bytes(n2, k)[0] == (r2 as u8));
        assert(r1 == r2);
        assert(le_bytes(n1, k).drop_first() =~= le_bytes(q1, (k - 1) as nat));
        assert(le_bytes(n2, k).drop_first() =~= le_bytes(q2, (k - 1) as nat));
        if q1 >= pow256((k - 1) as nat) {
            vstd::arithmetic::mul::lemma_mul_inequality(
                pow256((k - 1) as nat) as int,
                q1 as int,
                256,
            );
            assert(false);
        }
        if q2 >= pow256((k - 1) as nat) {
            vstd::arithmetic::mul::lemma_mul_inequality(
                pow256((k - 1) as nat) as int,
                q2 as int,
                256,
            );
            assert(false);
        }
        lemma_le_bytes_injective(q1, q2, (k - 1) as nat);
    }
}

pub proof fn lemma_char_bytes_len(q: Seq<char>)
    ensures
        char_bytes(q).len() == 4 * q.len(),
    decreases q.len(),
{
    if q.len() > 0 {
        lemma_le_bytes_len((q[0] as u32) as nat, 4);
        lemma_char_bytes_len(q.drop_first());
    }
}

/// Splitting a concatenation at matching lengths recovers both halves.
pub proof fn lemma_concat_cancel(s1: Seq<u8>, t1: Seq<u8>, s2: Seq<u8>, t2: Seq<u8>)
    requires
        s1 + t1 == s2 + t2,
        s1.len() == s2.len(),
    ensures
        s1 == s2,
        t1 == t2,
{
    assert forall|i: int| 0 <= i < s1.len() implies s1[i] == s2[i] by {
        assert((s1 + t1)[i] == s1[i]);
        assert((s2 + t2)[i] == s2[i]);
    }
    assert(s1 =~= s2);
    assert((s1 + t1).len() == s1.len() + t1.len());
    assert((s2 + t2).len() == s2.len() + t2.len());
    assert(t1.len() == t2.len());
    assert forall|i: int| 0 <= i < t1.len() implies t1[i] == t2[i] by {
        assert((s1 + t1)[s1.len() + i] == t1[i]);
        assert((s2 + t2)[s2.len() + i] == t2[i]);
    }
    assert(t1 =~= t2);
}

/// The four-bytes-per-character encoding determines the characters.
pub proof fn lemma_char_bytes_injective(q1: Seq<char>, q2: Seq<char>)
    requires
        char_bytes(q1) == char_bytes(q2),
    ensures
        q1 == q2,
    decreases q1.len(),
{
    lemma_char_bytes_len(q1);
    lemma_char_bytes_len(q2);
    assert(q1.len() == q2.len());
    if q1.len() == 0 {
        assert(q1 =~= q2);
    } else {
        let h1 = le_bytes((q1[0] as u32) as nat, 4);
        let h2 = le_bytes((q2[0] as u32) as nat, 4);
        lemma_le_bytes_len((q1[0] as u32) as nat, 4);
        lemma_le_bytes_len((q2[0] as u32) as nat, 4);
        lemma_concat_cancel(h1, char_bytes(q1.drop_first()), h2, char_bytes(q2.drop_first()));
        assert(pow256(4) == 0x1_0000_0000) by {
            reveal_with_fuel(pow256, 5);
        }
        assert(((q1[0] as u32) as nat) < 0x1_0000_0000);
        assert(((q2[0] as u32) as nat) < 0x1_0000_0000);
        lemma_le_bytes_injective((q1[0] as u32) as nat, (q2[0] as u32) as nat, 4);
        vstd::utf8::char_u32_cast(q1[0], q1[0] as u32);
        vstd::utf8::char_u32_cast(q2[0], q2[0] as u32);
        assert(q1[0] == q2[0]);
        lemma_char_bytes_injective(q1.drop_first(), q2.drop_first());
        assert forall|i: int| 0 <= i < q1.len() implies q1[i] == q2[i] by {
            if i > 0 {
                assert(q1.drop_first()[i - 1] == q2.drop_first()[i - 1]);
            }
        }
        assert(q1 =~= q2);
    }
}

/// Cache determinism, the separating half: the canonical encoding of a plain
/// search is injective, so two searches share a fingerprint only if the
/// digest itself collides.
pub proof fn lemma_search_encoding_injective(
    q1: Seq<char>,
    c1: Category,
    s1: SortColumn,
    o1: Order,
    p1: ProviderSet,
    q2: Seq<char>,
    c2: Category,
    s2: SortColumn,
    o2: Order,
    p2: ProviderSet,
)
    requires
        search_encoding(q1, c1, s1, o1, p1) == search_encoding(q2, c2, s2, o2, p2),
    ensures
        q1 == q2,
        c1 == c2,
        s1 == s2,
        o1 == o2,
        p1 == p2,
{
    let le1 = le_bytes(q1.len(), 8);
    let le2 = le_bytes(q2.len(), 8);
    let cb1 = char_bytes(q1);
    let cb2 = char_bytes(q2);
    let tg1 = seq![
        category_tag(c1),
        sort_tag(s1),
        order_tag(o1),
        bool_tag(p1.piratebay),
        bool_tag(p1.bitsearch),
        bool_tag(p1.yts),
    ];
    let tg2 = seq![
        category_tag(c2),
        sort_tag(s2),
        order_tag(o2),
        bool_tag(p2.piratebay),
        bool_tag(p2.bitsearch),
        bool_tag(p2.yts),
    ];
    lemma_le_bytes_len(q1.len(), 8);
    lemma_le_bytes_len(q2.len(), 8);
    lemma_char_bytes_len(q1);
    lemma_char_bytes_len(q2);
    assert((le1 + cb1 + tg1).len() == 8 + 4 * q1.len() + 6);
    assert((le2 + cb2 + tg2).len() == 8 + 4 * q2.len() + 6);
    assert(q1.len() == q2.len());
    lemma_concat_cancel(le1 + cb1, tg1, le2 + cb2, tg2);
    lemma_concat_cancel(le1, cb1, le2, cb2);
    lemma_char_bytes_injective(q1, q2);
    assert(tg1[0] == tg2[0] && tg1[1] == tg2[1] && tg1[2] == tg2[2] && tg1[3] == tg2[3] && tg1[4]
        == tg2[4] && tg1[5] == tg2[5]);
    assert(p1 == p2);
}

/// Cache determinism, the separating half for movie searches: the canonical
/// encoding is injective over all fields, the optional title included.
pub proof fn lemma_movie_encoding_injective(
    i1: Seq<char>,
    t1: Option<Seq<char>>,
    s1: SortColumn,
    o1: Order,
    p1: ProviderSet,
    i2: Seq<char>,
    t2: Option<Seq<char>>,
    s2: SortColumn,
    o2: Order,
    p2: ProviderSet,
)
    requires
        movie_encoding(i1, t1, s1, o1, p1) == movie_encoding(i2, t2, s2, o2, p2),
        i1.len() < pow256(8),
        i2.len() < pow256(8),
    ensures
        i1 == i2,
        t1 == t2,
        s1 == s2,
        o1 == o2,
        p1 == p2,
{
    let le1 = le_bytes(i1.len(), 8);
    let le2 = le_bytes(i2.len(), 8);
    let cb1 = char_bytes(i1);
    let cb2 = char_bytes(i2);
    let tp1: Seq<u8> = match t1 {
        Some(t) => seq![1u8] + le_bytes(t.len(), 8) + char_bytes(t),
        None => seq![0u8],
    };
    let tp2: Seq<u8> = match t2 {
        Some(t) => seq![1u8] + le_bytes(t.len(), 8) + char_bytes(t),
        None => seq![0u8],
    };
    let tg1 = seq![
        sort_tag(s1),
        order_tag(o1),
        bool_tag(p1.piratebay),
        bool_tag(p1.bitsearch),
        bool_tag(p1.yts),
    ];
    let tg2 = seq![
        sort_tag(s2),
        order_tag(o2),
        bool_tag(p2.piratebay),
        bool_tag(p2.bitsearch),
        bool_tag(p2.yts),
    ];
    lemma_le_bytes_len(i1.len(), 8);
    lemma_le_bytes_len(i2.len(), 8);
    lemma_char_bytes_len(i1);
    lemma_char_bytes_len(i2);
    assert(movie_encoding(i1, t1, s1, o1, p1) == ((le1 + cb1) + tp1) + tg1);
    assert(movie_encoding(i2, t2, s2, o2, p2) == ((le2 + cb2) + tp2) + tg2);
    assert((((le1 + cb1) + tp1) + tg1) =~= (le1 + ((cb1 + tp1) + tg1)));
    assert((((le2 + cb2) + tp2) + tg2) =~= (le2 + ((cb2 + tp2) + tg2)));
    lemma_concat_cancel(le1, (cb1 + tp1) + tg1, le2, (cb2 + tp2) + tg2);
    lemma_le_bytes_injective(i1.len(), i2.len(), 8);
    assert(i1.len() == i2.len());
    assert(((cb1 + tp1) + tg1) =~= cb1 + (tp1 + tg1));
    assert(((cb2 + tp2) + tg2) =~= cb2 + (tp2 + tg2));
    lemma_concat_cancel(cb1, tp1 + tg1, cb2, tp2 + tg2);
    lemma_char_bytes_injective(i1, i2);
    assert(tp1.len() + tg1.len() == tp2.len() + tg2.len());
    assert(tp1.len() == tp2.len());
    lemma_concat_cancel(tp1, tg1, tp2, tg2);
    assert(tg1[0] == tg2[0] && tg1[1] == tg2[1] && tg1[2] == tg2[2] && tg1[3] == tg2[3] && tg1[4]
        == tg2[4]);
    assert(p1 == p2);
    assert(tp1[0] == tp2[0]);
    match (t1, t2) {
        (Some(a), Some(b)) => {
            let la = le_bytes(a.len(), 8);
            let lb = le_bytes(b.len(), 8);
            lemma_le_bytes_len(a.len(), 8);
            lemma_le_bytes_len(b.len(), 8);
            assert(tp1 =~= seq![1u8] + (la + char_bytes(a)));
            assert(tp2 =~= seq![1u8] + (lb + char_bytes(b)));
            lemma_concat_cancel(seq![1u8], la + char_bytes(a), seq![1u8], lb + char_bytes(b));
            lemma_concat_cancel(la, char_bytes(a), lb, char_bytes(b));
            lemma_char_bytes_injective(a, b);
            assert(t1 == t2);
        },
        (None, None) => {
            assert(t1 == t2);
        },
        (Some(a), None) => {
            assert(tp1[0] == 1u8 && tp2[0] == 0u8);
            assert(false);
        },
        (None, Some(b)) => {
            assert(tp1[0] == 0u8 && tp2[0] == 1u8);
            assert(false);
        },
    }
}

} // verus!
