//! Which marker images a static map request fetches: each marker's image URL in turn,
//! skipping a URL whose image is already at hand. A URL whose fetch failed is tried again
//! when a later marker names it.
use vstd::prelude::*;

verus! {

/// The progress of fetching the marker images of a request.
pub struct MarkerFetches {
    urls: Vec<String>,
    next: usize,
    loaded: Vec<String>,
}

/// The model of the progress: the markers' URLs, the index of the next marker to
/// consider, and the URLs whose image is at hand.
pub struct MarkerFetchesView {
    pub urls: Seq<Seq<char>>,
    pub next: nat,
    pub loaded: Seq<Seq<char>>,
}

/// The views of a sequence of strings.
pub open spec fn string_views(s: Seq<String>) -> Seq<Seq<char>> {
    Seq::new(s.len(), |i: int| s[i]@)
}

impl View for MarkerFetches {
    type V = MarkerFetchesView;

    closed spec fn view(&self) -> MarkerFetchesView {
        MarkerFetchesView {
            urls: string_views(self.urls@),
            next: self.next as nat,
            loaded: string_views(self.loaded@),
        }
    }
}

/// Whether `url` is among `strings`.
fn contains_string(strings: &Vec<String>, url: &String) -> (b: bool)
    ensures
        b == string_views(strings@).contains(url@),
{
    let mut i: usize = 0;
    while i < strings.len()
        invariant
            i <= strings.len(),
            forall|j: int| 0 <= j < i ==> strings@[j]@ != url@,
        decreases strings.len() - i,
    {
        if strings[i] == *url {
            assert(string_views(strings@)[i as int] == url@);
            return true;
        }
        i = i + 1;
    }
    assert(!string_views(strings@).contains(url@)) by {
        if string_views(strings@).contains(url@) {
            let j = choose|j: int| 0 <= j < strings@.len() && string_views(strings@)[j] == url@;
            assert(strings@[j]@ == url@);
        }
    }
    false
}

impl MarkerFetches {
    #[verifier::type_invariant]
    spec fn next_in_range(self) -> bool {
        self.next <= self.urls@.len()
    }

    /// Nothing fetched yet for markers with the given image URLs, in order.
    pub fn new(urls: Vec<String>) -> (r: MarkerFetches)
        ensures
            r@.urls == string_views(urls@),
            r@.next == 0,
            r@.loaded == Seq::<Seq<char>>::empty(),
    {
        let r = MarkerFetches { urls, next: 0, loaded: Vec::new() };
        assert(string_views(r.loaded@) =~= Seq::<Seq<char>>::empty());
        r
    }

    /// The URL of the next marker whose image is not at hand, moving past it; `None` when
    /// every remaining marker's image is at hand.
    pub fn next_url(&mut self) -> (r: Option<String>)
        ensures
            final(self)@.urls == old(self)@.urls,
            final(self)@.loaded == old(self)@.loaded,
            final(self)@.next <= final(self)@.urls.len(),
            forall|j: int|
                old(self)@.next <= j < final(self)@.next - (if r is Some {
                    1int
                } else {
                    0int
                }) ==> old(self)@.loaded.contains(#[trigger] old(self)@.urls[j]),
            r is None ==> final(self)@.next == old(self)@.urls.len(),
            r matches Some(u) ==> final(self)@.next > old(self)@.next
                && u@ == old(self)@.urls[final(self)@.next - 1]
                && !old(self)@.loaded.contains(u@),
    {
        proof {
            use_type_invariant(&*self);
        }
        let ghost start = self.next;
        while self.next < self.urls.len()
            invariant
                self@.urls == old(self)@.urls,
                self@.loaded == old(self)@.loaded,
                start == old(self)@.next,
                start <= self.next <= self.urls.len(),
                forall|j: int|
                    start <= j < self.next ==> old(self)@.loaded.contains(
                        #[trigger] old(self)@.urls[j],
                    ),
            decreases self.urls.len() - self.next,
        {
            let i = self.next;
            self.next = i + 1;
            if !contains_string(&self.loaded, &self.urls[i]) {
                return Some(self.urls[i].clone());
            }
        }
        None
    }

    /// Records that the image of `url` is at hand.
    pub fn loaded(&mut self, url: String)
        ensures
            final(self)@.urls == old(self)@.urls,
            final(self)@.next == old(self)@.next,
            final(self)@.loaded == if old(self)@.loaded.contains(url@) {
                old(self)@.loaded
            } else {
                old(self)@.loaded.push(url@)
            },
    {
        if !contains_string(&self.loaded, &url) {
            let ghost before = string_views(self.loaded@);
            let mut taken = MarkerFetches { urls: Vec::new(), next: 0, loaded: Vec::new() };
            std::mem::swap(self, &mut taken);
            proof {
                use_type_invariant(&taken);
            }
            let MarkerFetches { urls, next, loaded } = taken;
            let mut loaded = loaded;
            loaded.push(url);
            assert(string_views(loaded@) =~= before.push(url@));
            *self = MarkerFetches { urls, next, loaded };
        }
    }
}

} // verus!
