//! The query-side data model: search parameters, provider selection, and the
//! flat result records that providers hand back.

use vstd::prelude::*;

verus! {

/// Content category a search is restricted to.
#[derive(Clone, Copy, Debug, PartialEq, Eq, Structural, Hash)]
pub enum Category {
    All,
    Audio,
    Video,
    Applications,
    Games,
    Other,
}

/// Column the upstream providers are asked to sort by.
#[derive(Clone, Copy, Debug, PartialEq, Eq, Structural, Hash)]
pub enum SortColumn {
    Added,
    Size,
    Seeders,
    Leechers,
}

/// Sort direction.
#[derive(Clone, Copy, Debug, PartialEq, Eq, Structural, Hash)]
pub enum Order {
    Ascending,
    Descending,
}

/// An upstream search provider.
#[derive(Clone, Copy, Debug, PartialEq, Eq, Structural, Hash)]
pub enum Provider {
    PirateBay,
    BitSearch,
    Yts,
}

/// A set of target providers, kept canonical as one flag per provider so that
/// equal sets are equal values regardless of how they were assembled.
#[derive(Clone, Copy, Debug, PartialEq, Eq, Structural)]
pub struct ProviderSet {
    pub piratebay: bool,
    pub bitsearch: bool,
    pub yts: bool,
}

impl ProviderSet {
    /// The empty provider set.
    pub fn empty() -> (r: ProviderSet)
        ensures
            r == (ProviderSet { piratebay: false, bitsearch: false, yts: false }),
    {
        ProviderSet { piratebay: false, bitsearch: false, yts: false }
    }

    /// The set of every provider.
    pub fn all() -> (r: ProviderSet)
        ensures
            r == (ProviderSet { piratebay: true, bitsearch: true, yts: true }),
    {
        ProviderSet { piratebay: true, bitsearch: true, yts: true }
    }

    /// Whether `p` is in the set.
    pub open spec fn spec_contains(self, p: Provider) -> bool {
        match p {
            Provider::PirateBay => self.piratebay,
            Provider::BitSearch => self.bitsearch,
            Provider::Yts => self.yts,
        }
    }

    /// Whether `p` is in the set.
    pub fn contains(&self, p: Provider) -> (r: bool)
        ensures
            r == self.spec_contains(p),
    {
        match p {
            Provider::PirateBay => self.piratebay,
            Provider::BitSearch => self.bitsearch,
            Provider::Yts => self.yts,
        }
    }

    /// The set with `p` added.
    pub fn with_provider(self, p: Provider) -> (r: ProviderSet)
        ensures
            r.spec_contains(p),
            forall|q: Provider| q != p ==> r.spec_contains(q) == self.spec_contains(q),
    {
        match p {
            Provider::PirateBay => ProviderSet { piratebay: true, ..self },
            Provider::BitSearch => ProviderSet { bitsearch: true, ..self },
            Provider::Yts => ProviderSet { yts: true, ..self },
        }
    }

    /// Whether no provider is selected.
    pub fn is_empty(&self) -> (r: bool)
        ensures
            r == (!self.piratebay && !self.bitsearch && !self.yts),
    {
        !self.piratebay && !self.bitsearch && !self.yts
    }
}

/// Parameters of a plain free-text search.
#[derive(Clone, Debug)]
pub struct SearchOptions {
    query: String,
    category: Category,
    sort: SortColumn,
    order: Order,
}

impl SearchOptions {
    pub fn new(query: String, category: Category, sort: SortColumn, order: Order) -> (r: Self)
        ensures
            r.spec_query() == query@,
            r.spec_category() == category,
            r.spec_sort() == sort,
            r.spec_order() == order,
    {
        Self { query, category, sort, order }
    }

    pub closed spec fn spec_query(self) -> Seq<char> {
        self.query@
    }

    pub fn query(&self) -> (r: &String)
        ensures
            r@ == self.spec_query(),
    {
        &self.query
    }

    pub closed spec fn spec_category(self) -> Category {
        self.category
    }

    pub fn category(&self) -> (r: Category)
        ensures
            r == self.spec_category(),
    {
        self.category
    }

    pub closed spec fn spec_sort(self) -> SortColumn {
        self.sort
    }

    pub fn sort(&self) -> (r: SortColumn)
        ensures
            r == self.spec_sort(),
    {
        self.sort
    }

    pub closed spec fn spec_order(self) -> Order {
        self.order
    }

    pub fn order(&self) -> (r: Order)
        ensures
            r == self.spec_order(),
    {
        self.order
    }
}

/// Parameters of an identifier-based (movie) search.
#[derive(Clone, Debug)]
pub struct MovieOptions {
    imdb: String,
    title: Option<String>,
    sort: SortColumn,
    order: Order,
}

impl MovieOptions {
    pub fn new(imdb: String, title: Option<String>, sort: SortColumn, order: Order) -> (r: Self)
        ensures
            r.spec_imdb() == imdb@,
            r.spec_title() == (match title {
                Some(t) => Some(t@),
                None => None,
            }),
            r.spec_sort() == sort,
            r.spec_order() == order,
    {
        Self { imdb, title, sort, order }
    }

    pub closed spec fn spec_imdb(self) -> Seq<char> {
        self.imdb@
    }

    pub fn imdb(&self) -> (r: &String)
        ensures
            r@ == self.spec_imdb(),
    {
        &self.imdb
    }

    pub closed spec fn spec_title(self) -> Option<Seq<char>> {
        match self.title {
            Some(t) => Some(t@),
            None => None,
        }
    }

    pub fn title(&self) -> (r: &Option<String>)
        ensures
            (match r {
                Some(t) => self.spec_title() == Some(t@),
                None => self.spec_title() is None,
            }),
    {
        &self.title
    }

    pub closed spec fn spec_sort(self) -> SortColumn {
        self.sort
    }

    pub fn sort(&self) -> (r: SortColumn)
        ensures
            r == self.spec_sort(),
    {
        self.sort
    }

    pub closed spec fn spec_order(self) -> Order {
        self.order
    }

    pub fn order(&self) -> (r: Order)
        ensures
            r == self.spec_order(),
    {
        self.order
    }
}

/// One flat result record as a provider reports it.
#[derive(Debug)]
pub struct ProviderResponse {
    pub provider: Provider,
    pub name: String,
    pub info_hash: String,
    pub seeders: u64,
    pub leechers: u64,
    pub size_bytes: u64,
}

impl Clone for ProviderResponse {
    fn clone(&self) -> (r: Self)
        ensures
            r == *self,
    {
        ProviderResponse {
            provider: self.provider,
            name: self.name.clone(),
            info_hash: self.info_hash.clone(),
            seeders: self.seeders,
            leechers: self.leechers,
            size_bytes: self.size_bytes,
        }
    }
}

/// Clones a result list; the copy holds the same records.
pub fn clone_responses(v: &Vec<ProviderResponse>) -> (r: Vec<ProviderResponse>)
    ensures
        r@ == v@,
{
    let out: Vec<ProviderResponse> = v.clone();
    proof {
        assert forall|i: int| 0 <= i < v@.len() implies out@[i] == v@[i] by {
            assert(cloned::<ProviderResponse>(v@[i], out@[i]));
        }
        assert(out@ =~= v@);
    }
    out
}

} // verus!
