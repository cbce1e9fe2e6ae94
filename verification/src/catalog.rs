//! The read-only catalog: categories, script entries, and the display
//! string `"<category>/<name>"` that the search engine matches against.

use vstd::prelude::*;

verus! {

/// One script of the catalog, uniquely identified by `(category, name)`.
pub struct ScriptEntry {
    pub name: Vec<u8>,
    pub category: Vec<u8>,
    pub path: Vec<u8>,
}

/// Mathematical value of a `ScriptEntry`.
pub ghost struct ScriptEntryV {
    pub name: Seq<u8>,
    pub category: Seq<u8>,
    pub path: Seq<u8>,
}

impl View for ScriptEntry {
    type V = ScriptEntryV;

    open spec fn view(&self) -> ScriptEntryV {
        ScriptEntryV { name: self.name@, category: self.category@, path: self.path@ }
    }
}

impl ScriptEntry {
    pub fn clone_entry(&self) -> (r: ScriptEntry)
        ensures
            r@ == self@,
    {
        let r = ScriptEntry {
            name: self.name.clone(),
            category: self.category.clone(),
            path: self.path.clone(),
        };
        assert(r@ == self@);
        r
    }
}

/// One category and the scripts grouped under it, in catalog order.
pub struct CategoryEntry {
    pub name: Vec<u8>,
    pub scripts: Vec<ScriptEntry>,
}

/// Mathematical value of a `CategoryEntry`.
pub ghost struct CategoryEntryV {
    pub name: Seq<u8>,
    pub scripts: Seq<ScriptEntryV>,
}

/// Mathematical value of a list of entries.
pub open spec fn entries_view(s: Seq<ScriptEntry>) -> Seq<ScriptEntryV> {
    s.map_values(|e: ScriptEntry| e@)
}

pub proof fn lemma_entries_view_push(s: Seq<ScriptEntry>, e: ScriptEntry)
    ensures
        entries_view(s.push(e)) == entries_view(s).push(e@),
{
    assert(entries_view(s.push(e)) =~= entries_view(s).push(e@));
}

impl View for CategoryEntry {
    type V = CategoryEntryV;

    open spec fn view(&self) -> CategoryEntryV {
        CategoryEntryV { name: self.name@, scripts: entries_view(self.scripts@) }
    }
}

/// The whole catalog: an ordered sequence of categories, each with its
/// ordered scripts. Loaded once, never mutated by the core.
pub struct Catalog {
    pub categories: Vec<CategoryEntry>,
}

impl View for Catalog {
    type V = Seq<CategoryEntryV>;

    open spec fn view(&self) -> Seq<CategoryEntryV> {
        self.categories@.map_values(|c: CategoryEntry| c@)
    }
}

/// Catalog well-formedness: category names are unique, and every script
/// carries the name of the category it is grouped under.
pub open spec fn catalog_wf(cat: Seq<CategoryEntryV>) -> bool {
    &&& forall|i: int, j: int|
        0 <= i < cat.len() && 0 <= j < cat.len() && i != j ==> cat[i].name != cat[j].name
    &&& forall|i: int, k: int|
        0 <= i < cat.len() && 0 <= k < cat[i].scripts.len() ==> (#[trigger] cat[i].scripts[k]).category
            == cat[i].name
    &&& forall|i: int, k: int, l: int|
        0 <= i < cat.len() && 0 <= k < cat[i].scripts.len() && 0 <= l < cat[i].scripts.len() && k
            != l ==> (#[trigger] cat[i].scripts[k]).name != (#[trigger] cat[i].scripts[l]).name
}

/// The display string of an entry: `"<category>/<name>"` as bytes.
pub open spec fn display_of(e: ScriptEntryV) -> Seq<u8> {
    e.category + seq![47u8] + e.name
}

/// All entries of the catalog flattened into catalog order
/// (category order first, then script order within the category).
pub open spec fn flat_entries(cat: Seq<CategoryEntryV>) -> Seq<ScriptEntryV>
    decreases cat.len(),
{
    if cat.len() == 0 {
        Seq::empty()
    } else {
        flat_entries(cat.drop_last()) + cat.last().scripts
    }
}

/// Builds the display string `"<category>/<name>"` of an entry.
pub fn display_string(e: &ScriptEntry) -> (r: Vec<u8>)
    ensures
        r@ == display_of(e@),
{
    let mut r: Vec<u8> = Vec::new();
    let mut i: usize = 0;
    while i < e.category.len()
        invariant
            i <= e.category.len(),
            r@ == e.category@.take(i as int),
        decreases e.category.len() - i,
    {
        r.push(e.category[i]);
        assert(r@ =~= e.category@.take(i + 1));
        i += 1;
    }
    assert(r@ =~= e.category@);
    r.push(47u8);
    let mut k: usize = 0;
    while k < e.name.len()
        invariant
            k <= e.name.len(),
            r@ == e.category@ + seq![47u8] + e.name@.take(k as int),
        decreases e.name.len() - k,
    {
        r.push(e.name[k]);
        assert(r@ =~= e.category@ + seq![47u8] + e.name@.take(k + 1));
        k += 1;
    }
    assert(r@ =~= display_of(e@));
    r
}

/// Flattens the catalog's entries into one list, in catalog order.
pub fn collect_entries(cat: &Catalog) -> (r: Vec<ScriptEntry>)
    ensures
        entries_view(r@) == flat_entries(cat@),
{
    let mut r: Vec<ScriptEntry> = Vec::new();
    let mut i: usize = 0;
    while i < cat.categories.len()
        invariant
            i <= cat.categories.len(),
            entries_view(r@) == flat_entries(cat@.take(i as int)),
        decreases cat.categories.len() - i,
    {
        let c = &cat.categories[i];
        let mut k: usize = 0;
        while k < c.scripts.len()
            invariant
                k <= c.scripts.len(),
                i < cat.categories.len(),
                c == &cat.categories[i as int],
                entries_view(r@) == flat_entries(cat@.take(i as int)) + c@.scripts.take(k as int),
            decreases c.scripts.len() - k,
        {
            let e = c.scripts[k].clone_entry();
            let ghost prev = r@;
            let ghost esnap = e;
            assert(e@ == c@.scripts[k as int]);
            r.push(e);
            proof {
                lemma_entries_view_push(prev, esnap);
                assert(entries_view(r@) =~= flat_entries(cat@.take(i as int)) + c@.scripts.take(
                    k + 1,
                ));
            }
            k += 1;
        }
        proof {
            assert(c@.scripts.take(c.scripts.len() as int) =~= c@.scripts);
            assert(cat@.take(i + 1).drop_last() =~= cat@.take(i as int));
            assert(cat@.take(i + 1).last() == cat@[i as int]);
            assert(entries_view(r@) == flat_entries(cat@.take(i + 1)));
        }
        i += 1;
    }
    assert(cat@.take(cat.categories.len() as int) =~= cat@);
    r
}

/// Every flattened entry comes from some category of the catalog.
pub proof fn lemma_flat_entry_origin(cats: Seq<CategoryEntryV>, p: int)
    requires
        0 <= p < flat_entries(cats).len(),
    ensures
        exists|c: int, k: int|
            0 <= c < cats.len() && 0 <= k < cats[c].scripts.len() && flat_entries(cats)[p]
                == #[trigger] cats[c].scripts[k],
    decreases cats.len(),
{
    if cats.len() == 0 {
    } else {
        let pre = flat_entries(cats.drop_last());
        if p < pre.len() {
            lemma_flat_entry_origin(cats.drop_last(), p);
            let (c, k) = choose|c: int, k: int|
                0 <= c < cats.drop_last().len() && 0 <= k < cats.drop_last()[c].scripts.len()
                    && pre[p] == #[trigger] cats.drop_last()[c].scripts[k];
            assert(cats.drop_last()[c] == cats[c]);
            assert(flat_entries(cats)[p] == pre[p]);
            assert(flat_entries(cats)[p] == cats[c].scripts[k]);
        } else {
            let c = cats.len() - 1;
            let k = p - pre.len();
            assert(cats.last() == cats[c]);
            assert(flat_entries(cats)[p] == cats[c].scripts[k]);
        }
    }
}

} // verus!
