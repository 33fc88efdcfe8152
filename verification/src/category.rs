//! Group hupas by category.

use vstd::prelude::*;

use crate::hupa::{hupa_le, lemma_hupa_le_total, lemma_hupa_le_trans, Hupa, HupaSpec};
use crate::strutil::str_eq;

verus! {

/// Mathematical image of a [`Category`].
pub struct CategorySpec {
    /// The joined category path shared by the members.
    pub name: Seq<char>,
    /// The members, in insertion order.
    pub hupas: Seq<HupaSpec>,
}

/// Category is a struct containing hupas of the same category.
#[derive(Debug)]
pub struct Category {
    name: String,
    hupas: Vec<Hupa>,
}

impl View for Category {
    type V = CategorySpec;

    closed spec fn view(&self) -> CategorySpec {
        CategorySpec { name: self.name@, hupas: self.hupas.deep_view() }
    }
}

impl DeepView for Category {
    type V = CategorySpec;

    open spec fn deep_view(&self) -> CategorySpec {
        self.view()
    }
}

/// The hupas of `s`, each pairwise in display order.
pub open spec fn sorted_hupas(s: Seq<HupaSpec>) -> bool {
    forall|i: int, j: int| 0 <= i <= j < s.len() ==> hupa_le(s[i], s[j])
}

impl Category {
    /// Create a new category group.
    pub fn new(name: &str) -> (r: Category)
        ensures
            r@.name == name@,
            r@.hupas == Seq::<HupaSpec>::empty(),
    {
        let r = Category { name: name.to_owned(), hupas: Vec::new() };
        proof {
            assert(r@.hupas =~= Seq::<HupaSpec>::empty());
        }
        r
    }

    /// Return the category name.
    pub fn get_name(&self) -> (r: &String)
        ensures
            r@ == self@.name,
    {
        &self.name
    }

    /// Return the hupas list.
    pub fn get_hupas(&self) -> (r: &Vec<Hupa>)
        ensures
            r.deep_view() == self@.hupas,
    {
        &self.hupas
    }

    /// Insert a new hupa at index.
    ///
    /// Return the hupa if category is not the same.
    pub fn insert(&mut self, idx: usize, hupa: Hupa) -> (r: Option<Hupa>)
        requires
            hupa@.category_str() == old(self)@.name ==> idx <= old(self)@.hupas.len(),
        ensures
            final(self)@.name == old(self)@.name,
            if hupa@.category_str() == old(self)@.name {
                final(self)@.hupas == old(self)@.hupas.insert(idx as int, hupa@) && r is None
            } else {
                final(self)@.hupas == old(self)@.hupas && r == Some(hupa)
            },
    {
        let key = hupa.get_category_str();
        if str_eq(key.as_str(), self.name.as_str()) {
            self.hupas.insert(idx, hupa);
            proof {
                assert(self@.hupas =~= old(self)@.hupas.insert(idx as int, hupa@));
            }
            None
        } else {
            Some(hupa)
        }
    }

    /// Add a new hupa.
    ///
    /// Return the hupa if category is not the same.
    pub fn push(&mut self, hupa: Hupa) -> (r: Option<Hupa>)
        ensures
            final(self)@.name == old(self)@.name,
            if hupa@.category_str() == old(self)@.name {
                final(self)@.hupas == old(self)@.hupas.push(hupa@) && r is None
            } else {
                final(self)@.hupas == old(self)@.hupas && r == Some(hupa)
            },
    {
        let key = hupa.get_category_str();
        if str_eq(key.as_str(), self.name.as_str()) {
            self.hupas.push(hupa);
            proof {
                assert(self@.hupas =~= old(self)@.hupas.push(hupa@));
            }
            None
        } else {
            Some(hupa)
        }
    }

    /// Remove hupa at index.
    pub fn remove(&mut self, idx: usize) -> (r: Hupa)
        requires
            idx < old(self)@.hupas.len(),
        ensures
            final(self)@.name == old(self)@.name,
            final(self)@.hupas == old(self)@.hupas.remove(idx as int),
            r@ == old(self)@.hupas[idx as int],
    {
        let r = self.hupas.remove(idx);
        proof {
            assert(self@.hupas =~= old(self)@.hupas.remove(idx as int));
        }
        r
    }

    /// Remove the last hupa of the category.
    pub fn pop(&mut self) -> (r: Option<Hupa>)
        ensures
            final(self)@.name == old(self)@.name,
            if old(self)@.hupas.len() == 0 {
                final(self)@.hupas == old(self)@.hupas && r is None
            } else {
                final(self)@.hupas == old(self)@.hupas.drop_last() && (r matches Some(h) && h@
                    == old(self)@.hupas.last())
            },
    {
        let r = self.hupas.pop();
        proof {
            if old(self)@.hupas.len() > 0 {
                assert(self@.hupas =~= old(self)@.hupas.drop_last());
            } else {
                assert(self@.hupas =~= old(self)@.hupas);
            }
        }
        r
    }

    /// Length of hupas' vec.
    pub fn len(&self) -> (r: usize)
        ensures
            r == self@.hupas.len(),
    {
        self.hupas.len()
    }

    /// The hupa at `idx`.
    pub fn get(&self, idx: usize) -> (r: &Hupa)
        requires
            idx < self@.hupas.len(),
        ensures
            r@ == self@.hupas[idx as int],
    {
        &self.hupas[idx]
    }

    /// Return the hupas to iterate over.
    pub fn iter(&self) -> (r: &Vec<Hupa>)
        ensures
            r.deep_view() == self@.hupas,
    {
        &self.hupas
    }

    /// Sort all hupas into display order, keeping the same members:
    /// the result is exactly [`sort_spec`] of the old members, which is
    /// stable and leaves an already sorted category unchanged
    /// ([`lemma_sort_sorted_identity`]).
    pub fn sort(&mut self)
        ensures
            final(self)@.name == old(self)@.name,
            final(self)@.hupas == sort_spec(old(self)@.hupas),
            sorted_hupas(final(self)@.hupas),
            final(self)@.hupas.to_multiset() == old(self)@.hupas.to_multiset(),
    {
        sort_hupas(&mut self.hupas);
    }
}

/// Where a hupa enters a sorted run: before the first member it comes
/// strictly before, after every member it does not — so after all its
/// order-equals.
pub open spec fn insert_pos(s: Seq<HupaSpec>, x: HupaSpec) -> int
    decreases s.len(),
{
    if s.len() == 0 {
        0
    } else if x.lt(s[0]) {
        0
    } else {
        1 + insert_pos(s.drop_first(), x)
    }
}

pub proof fn lemma_insert_pos(s: Seq<HupaSpec>, x: HupaSpec)
    ensures
        0 <= insert_pos(s, x) <= s.len(),
        forall|m: int| 0 <= m < insert_pos(s, x) ==> !x.lt(s[m]),
        insert_pos(s, x) < s.len() ==> x.lt(s[insert_pos(s, x)]),
    decreases s.len(),
{
    if s.len() > 0 && !x.lt(s[0]) {
        lemma_insert_pos(s.drop_first(), x);
        assert forall|m: int| 0 <= m < insert_pos(s, x) implies !x.lt(s[m]) by {
            if m > 0 {
                assert(s.drop_first()[m - 1] == s[m]);
            }
        }
    }
}

/// The first position whose member the hupa comes strictly before
/// determines [`insert_pos`].
proof fn lemma_insert_pos_at(s: Seq<HupaSpec>, x: HupaSpec, k: int)
    requires
        0 <= k <= s.len(),
        forall|m: int| 0 <= m < k ==> !x.lt(s[m]),
        k < s.len() ==> x.lt(s[k]),
    ensures
        insert_pos(s, x) == k,
    decreases k,
{
    if k > 0 {
        assert forall|m: int| 0 <= m < k - 1 implies !x.lt(s.drop_first()[m]) by {
            assert(s.drop_first()[m] == s[m + 1]);
        }
        if k < s.len() {
            assert(s.drop_first()[k - 1] == s[k]);
        }
        lemma_insert_pos_at(s.drop_first(), x, k - 1);
    }
}

/// The stable sort of the hupas: each in turn enters the sorted run of
/// the earlier ones at its [`insert_pos`], so hupas that compare
/// order-equal keep their relative order.
pub open spec fn sort_spec(s: Seq<HupaSpec>) -> Seq<HupaSpec>
    decreases s.len(),
{
    if s.len() == 0 {
        Seq::empty()
    } else {
        let sorted = sort_spec(s.drop_last());
        sorted.insert(insert_pos(sorted, s.last()), s.last())
    }
}

/// Sorting a list of hupas that already stands in display order changes
/// nothing.
pub proof fn lemma_sort_sorted_identity(s: Seq<HupaSpec>)
    requires
        sorted_hupas(s),
    ensures
        sort_spec(s) == s,
    decreases s.len(),
{
    if s.len() > 0 {
        let front = s.drop_last();
        assert forall|i: int, j: int| 0 <= i <= j < front.len() implies hupa_le(
            front[i],
            front[j],
        ) by {
            assert(front[i] == s[i]);
            assert(front[j] == s[j]);
        }
        lemma_sort_sorted_identity(front);
        assert forall|m: int| 0 <= m < front.len() implies !s.last().lt(front[m]) by {
            assert(front[m] == s[m]);
            assert(hupa_le(s[m], s[s.len() - 1]));
        }
        lemma_insert_pos_at(front, s.last(), front.len() as int);
        assert(front.insert(front.len() as int, s.last()) =~= s);
    }
}

/// Sorts hupas into display order, keeping the same members: the result
/// is exactly [`sort_spec`] of the old members.
pub fn sort_hupas(hupas: &mut Vec<Hupa>)
    ensures
        final(hupas).deep_view() == sort_spec(old(hupas).deep_view()),
        sorted_hupas(final(hupas).deep_view()),
        final(hupas).deep_view().to_multiset() == old(hupas).deep_view().to_multiset(),
{
    proof {
        broadcast use vstd::seq_lib::group_to_multiset_ensures;
    }
    let ghost orig = hupas.deep_view();
    let n = hupas.len();
    let mut i: usize = 1;
    if n == 0 {
        proof {
            assert(hupas.deep_view() =~= old(hupas).deep_view());
            assert(sort_spec(orig) =~= orig);
        }
        return ;
    }
    proof {
        assert forall|a: int, b: int|
            0 <= a <= b < hupas.deep_view().take(1).len() implies hupa_le(
            hupas.deep_view().take(1)[a],
            hupas.deep_view().take(1)[b],
        ) by {
            lemma_hupa_le_total(hupas.deep_view()[a], hupas.deep_view()[a]);
        }
        assert(orig.len() == n);
        assert(sort_spec(orig.take(1).drop_last()) == Seq::<HupaSpec>::empty()) by {
            assert(orig.take(1).drop_last() =~= Seq::<HupaSpec>::empty());
        }
        assert(orig.take(1).drop_last() =~= Seq::<HupaSpec>::empty());
        assert(orig.take(1).last() == orig[0]);
        assert(Seq::<HupaSpec>::empty().insert(0, orig[0]) =~= orig.take(1));
        assert(hupas.deep_view().take(1) =~= orig.take(1));
        assert(hupas.deep_view().skip(1) =~= orig.skip(1));
    }
    while i < n
        invariant
            1 <= i <= n,
            n == hupas.len(),
            n == orig.len(),
            sorted_hupas(hupas.deep_view().take(i as int)),
            hupas.deep_view().take(i as int) == sort_spec(orig.take(i as int)),
            hupas.deep_view().skip(i as int) == orig.skip(i as int),
            hupas.deep_view().to_multiset() == old(hupas).deep_view().to_multiset(),
        decreases n - i,
    {
        let ghost pre = hupas.deep_view();
        let ghost pre_raw = hupas@;
        let mut k: usize = 0;
        while k < i && !hupas[i].comes_before(&hupas[k])
            invariant
                k <= i < n,
                n == hupas.len(),
                hupas.deep_view() == pre,
                hupas@ == pre_raw,
                forall|m: int| 0 <= m < k ==> hupa_le(pre[m], pre[i as int]),
            decreases i - k,
        {
            proof {
                assert(hupas@[i as int].deep_view() == pre[i as int]);
                assert(hupas@[k as int].deep_view() == pre[k as int]);
                lemma_hupa_le_total(pre[k as int], pre[i as int]);
            }
            k = k + 1;
        }
        proof {
            assert(hupas@[i as int].deep_view() == pre[i as int]);
            if k < i {
                assert(hupas@[k as int].deep_view() == pre[k as int]);
            }
        }
        let x = hupas.remove(i);
        hupas.insert(k, x);
        proof {
            let now = hupas.deep_view();
            let target = pre.take(i as int).insert(k as int, pre[i as int]) + pre.skip(i + 1);
            assert(hupas@ == pre_raw.remove(i as int).insert(k as int, pre_raw[i as int]));
            assert forall|m: int| 0 <= m < now.len() implies now[m] == target[m] by {
                assert(now[m] == hupas@[m]@);
                if m < k {
                    assert(hupas@[m] == pre_raw[m]);
                    assert(target[m] == pre[m]);
                } else if m == k {
                    assert(hupas@[m] == pre_raw[i as int]);
                    assert(target[m] == pre[i as int]);
                } else if m <= i {
                    assert(hupas@[m] == pre_raw[m - 1]);
                    assert(target[m] == pre[m - 1]);
                } else {
                    assert(hupas@[m] == pre_raw[m]);
                    assert(target[m] == pre[m]);
                }
            }
            assert(now =~= target);
            if k < i {
                assert(pre.take(i as int)[k as int] == pre[k as int]);
            }
            lemma_sorted_insert(pre.take(i as int), pre[i as int], k as int);
            assert(pre.take(i as int).insert(k as int, pre[i as int]) =~= now.take(i + 1));
            assert(sorted_hupas(now.take(i + 1)));
            lemma_multiset_insert_remove(pre, i as int, k as int);
            assert(now =~= pre.remove(i as int).insert(k as int, pre[i as int]));
            assert forall|m: int| 0 <= m < k implies !pre[i as int].lt(
                pre.take(i as int)[m],
            ) by {
                assert(pre.take(i as int)[m] == pre[m]);
            }
            if k < i {
                assert(pre[i as int].lt(pre.take(i as int)[k as int]));
            }
            lemma_insert_pos_at(pre.take(i as int), pre[i as int], k as int);
            assert(pre.skip(i as int)[0] == pre[i as int]);
            assert(pre[i as int] == orig[i as int]);
            assert(orig.take(i + 1).drop_last() =~= orig.take(i as int));
            assert(orig.take(i + 1).last() == orig[i as int]);
            assert(sort_spec(orig.take(i + 1)) == now.take(i + 1));
            assert(now.skip(i + 1) =~= pre.skip(i + 1));
            assert(pre.skip(i + 1) =~= orig.skip(i + 1)) by {
                assert forall|m: int|
                    0 <= m < pre.len() - i - 1 implies #[trigger] pre.skip(i + 1)[m] == orig.skip(
                    i + 1,
                )[m] by {
                    assert(pre.skip(i as int)[m + 1] == pre[i + 1 + m]);
                    assert(orig.skip(i as int)[m + 1] == orig[i + 1 + m]);
                }
            }
        }
        i = i + 1;
    }
    proof {
        assert(hupas.deep_view().take(n as int) =~= hupas.deep_view());
        assert(orig.take(n as int) =~= orig);
    }
}

/// Inserting an element that tops the first `k` entries of a sorted prefix
/// and comes before the rest keeps the prefix sorted.
proof fn lemma_sorted_insert(s: Seq<HupaSpec>, x: HupaSpec, k: int)
    requires
        0 <= k <= s.len(),
        sorted_hupas(s),
        forall|m: int| 0 <= m < k ==> hupa_le(s[m], x),
        k < s.len() ==> x.lt(s[k]),
    ensures
        sorted_hupas(s.insert(k, x)),
{
    let t = s.insert(k, x);
    assert forall|i: int, j: int| 0 <= i <= j < t.len() implies hupa_le(t[i], t[j]) by {
        lemma_hupa_le_total(x, x);
        if i < k && j == k {
            assert(t[i] == s[i]);
            assert(t[j] == x);
        } else if i == k && j > k {
            assert(t[j] == s[j - 1]);
            assert(x.lt(s[k]));
            assert(hupa_le(x, s[k])) by {
                lemma_hupa_le_total(x, s[k]);
                lemma_hupa_le_total(s[k], x);
                if !hupa_le(x, s[k]) {
                    assert(x.lt(s[k]) && s[k].lt(x));
                    crate::strutil::lemma_chars_lt_total(x.category_str(), s[k].category_str());
                    crate::strutil::lemma_chars_lt_total(x.name, s[k].name);
                }
            }
            lemma_hupa_le_trans(x, s[k], s[j - 1]);
        } else if i < k && j > k {
            assert(t[i] == s[i]);
            assert(t[j] == s[j - 1]);
        } else if i != k && j != k {
            let si = if i < k {
                i
            } else {
                i - 1
            };
            let sj = if j < k {
                j
            } else {
                j - 1
            };
            assert(t[i] == s[si]);
            assert(t[j] == s[sj]);
        }
    }
}

/// Taking an element out at `i` and putting it back at `k <= i` keeps the
/// members.
proof fn lemma_multiset_insert_remove(s: Seq<HupaSpec>, i: int, k: int)
    requires
        0 <= k <= i < s.len(),
    ensures
        s.remove(i).insert(k, s[i]).to_multiset() == s.to_multiset(),
{
    broadcast use vstd::seq_lib::group_to_multiset_ensures;

    let r = s.remove(i);
    let t = r.insert(k, s[i]);
    assert(t.remove(k) =~= r);
    assert(t[k] == s[i]);
    assert(t.remove(k).to_multiset() =~= t.to_multiset().remove(t[k]));
    assert(s.remove(i).to_multiset() =~= s.to_multiset().remove(s[i]));
    assert(t.to_multiset().contains(s[i])) by {
        assert(t.contains(s[i])) by {
            assert(t[k] == s[i]);
        }
    }
    assert(s.to_multiset().contains(s[i])) by {
        assert(s.contains(s[i])) by {
            assert(s[i] == s[i]);
        }
    }
    assert(t.to_multiset().remove(t[k]).insert(s[i]) =~= t.to_multiset());
    assert(s.to_multiset().remove(s[i]).insert(s[i]) =~= s.to_multiset());
    assert(t.to_multiset() =~= s.to_multiset());
}

/// The groups that the hupas fall into, in first-seen order, after `h`
/// joins the group of its joined category, or opens a new last group.
pub open spec fn insert_hupa_grouped(cats: Seq<CategorySpec>, h: HupaSpec) -> Seq<CategorySpec>
    decreases cats.len(),
{
    if cats.len() == 0 {
        seq![CategorySpec { name: h.category_str(), hupas: seq![h] }]
    } else if cats[0].name == h.category_str() {
        seq![CategorySpec { name: cats[0].name, hupas: cats[0].hupas.push(h) }]
            + cats.drop_first()
    } else {
        seq![cats[0]] + insert_hupa_grouped(cats.drop_first(), h)
    }
}

/// The groups of the given hupas, built in order: each hupa joins the
/// first group carrying its joined category, or opens a new one.
pub open spec fn group_hupas(hupas: Seq<HupaSpec>) -> Seq<CategorySpec>
    decreases hupas.len(),
{
    if hupas.len() == 0 {
        Seq::empty()
    } else {
        insert_hupa_grouped(group_hupas(hupas.drop_last()), hupas.last())
    }
}

/// Conversion into categories.
pub trait IntoCategories {
    /// Performs the conversion.
    fn into_categories(self) -> (r: Vec<Category>) where Self: Sized;
}

/// When the first group named for `h` stands at `j`, `h` joins it there.
proof fn lemma_insert_grouped_at(cats: Seq<CategorySpec>, h: HupaSpec, j: int)
    requires
        0 <= j < cats.len(),
        cats[j].name == h.category_str(),
        forall|m: int| 0 <= m < j ==> cats[m].name != h.category_str(),
    ensures
        insert_hupa_grouped(cats, h) == cats.update(
            j,
            CategorySpec { name: cats[j].name, hupas: cats[j].hupas.push(h) },
        ),
    decreases j,
{
    if j == 0 {
        assert(insert_hupa_grouped(cats, h) =~= cats.update(
            0,
            CategorySpec { name: cats[0].name, hupas: cats[0].hupas.push(h) },
        ));
    } else {
        assert forall|m: int| 0 <= m < j - 1 implies cats.drop_first()[m].name
            != h.category_str() by {
            assert(cats.drop_first()[m] == cats[m + 1]);
        }
        lemma_insert_grouped_at(cats.drop_first(), h, j - 1);
        assert(insert_hupa_grouped(cats, h) =~= cats.update(
            j,
            CategorySpec { name: cats[j].name, hupas: cats[j].hupas.push(h) },
        ));
    }
}

/// Without a group named for `h`, a new last group opens for it.
proof fn lemma_insert_grouped_none(cats: Seq<CategorySpec>, h: HupaSpec)
    requires
        forall|m: int| 0 <= m < cats.len() ==> cats[m].name != h.category_str(),
    ensures
        insert_hupa_grouped(cats, h) == cats.push(
            CategorySpec { name: h.category_str(), hupas: seq![h] },
        ),
    decreases cats.len(),
{
    if cats.len() == 0 {
        assert(insert_hupa_grouped(cats, h) =~= cats.push(
            CategorySpec { name: h.category_str(), hupas: seq![h] },
        ));
    } else {
        assert forall|m: int| 0 <= m < cats.drop_first().len() implies cats.drop_first()[m].name
            != h.category_str() by {
            assert(cats.drop_first()[m] == cats[m + 1]);
        }
        lemma_insert_grouped_none(cats.drop_first(), h);
        assert(insert_hupa_grouped(cats, h) =~= cats.push(
            CategorySpec { name: h.category_str(), hupas: seq![h] },
        ));
    }
}

impl IntoCategories for Vec<Hupa> {
    /// Groups the hupas by their joined category, in first-seen order.
    fn into_categories(self) -> (r: Vec<Category>)
        ensures
            r.deep_view() == group_hupas(self.deep_view()),
    {
        let ghost orig = self.deep_view();
        let mut hupas = self;
        let mut categories: Vec<Category> = Vec::new();
        let mut i: usize = 0;
        let n = hupas.len();
        proof {
            assert(categories.deep_view() =~= group_hupas(orig.take(0)));
            assert(hupas.deep_view() =~= orig.skip(0));
        }
        while i < n
            invariant
                i <= n,
                n == orig.len(),
                hupas@.len() == n - i,
                hupas.deep_view() == orig.skip(i as int),
                categories.deep_view() == group_hupas(orig.take(i as int)),
            decreases n - i,
        {
            let ghost cats_pre = categories.deep_view();
            let ghost hupas_pre = hupas@;
            let h = hupas.remove(0);
            proof {
                assert(h@ == hupas_pre[0]@);
                assert(hupas_pre[0]@ == orig.skip(i as int)[0]);
                assert(h@ == orig[i as int]);
                assert forall|m: int| 0 <= m < n - i - 1 implies hupas.deep_view()[m] == orig.skip(
                    i + 1,
                )[m] by {
                    assert(hupas.deep_view()[m] == hupas@[m]@);
                    assert(hupas@[m] == hupas_pre[m + 1]);
                    assert(orig.skip(i as int)[m + 1] == hupas_pre[m + 1]@);
                }
                assert(hupas.deep_view() =~= orig.skip(i + 1));
                assert(orig.take(i + 1).drop_last() =~= orig.take(i as int));
                assert(orig.take(i + 1).last() == orig[i as int]);
                assert(group_hupas(orig.take(i + 1)) == insert_hupa_grouped(cats_pre, h@));
            }
            let key = h.get_category_str();
            let found = find_category(&categories, key.as_str());
            match found {
                Some(j) => {
                    proof {
                        lemma_insert_grouped_at(cats_pre, h@, j as int);
                    }
                    let mut c = categories.remove(j);
                    proof {
                        assert(c@ == cats_pre[j as int]);
                        assert(c@.name == h@.category_str());
                    }
                    let back = c.push(h);
                    proof {
                        assert(back is None);
                    }
                    categories.insert(j, c);
                    proof {
                        assert forall|m: int|
                            0 <= m < categories.deep_view().len() implies categories.deep_view()[m]
                            == cats_pre.update(
                            j as int,
                            CategorySpec {
                                name: cats_pre[j as int].name,
                                hupas: cats_pre[j as int].hupas.push(h@),
                            },
                        )[m] by {
                            assert(categories.deep_view()[m] == categories@[m]@);
                        }
                        assert(categories.deep_view() =~= insert_hupa_grouped(cats_pre, h@));
                    }
                }
                None => {
                    let mut c = Category::new(key.as_str());
                    proof {
                        assert(c@.name == h@.category_str());
                        lemma_insert_grouped_none(cats_pre, h@);
                    }
                    let back = c.push(h);
                    proof {
                        assert(back is None);
                        assert(c@.hupas =~= seq![h@]);
                    }
                    categories.push(c);
                    proof {
                        assert forall|m: int|
                            0 <= m < categories.deep_view().len() implies categories.deep_view()[m]
                            == cats_pre.push(
                            CategorySpec { name: h@.category_str(), hupas: seq![h@] },
                        )[m] by {
                            assert(categories.deep_view()[m] == categories@[m]@);
                        }
                        assert(categories.deep_view() =~= insert_hupa_grouped(cats_pre, h@));
                    }
                }
            }
            i = i + 1;
        }
        proof {
            assert(orig.take(n as int) =~= orig);
        }
        categories
    }
}

/// The first group named `key`, if any.
fn find_category(categories: &Vec<Category>, key: &str) -> (r: Option<usize>)
    ensures
        match r {
            Some(j) => {
                &&& j < categories.deep_view().len()
                &&& categories.deep_view()[j as int].name == key@
                &&& forall|m: int| 0 <= m < j ==> categories.deep_view()[m].name != key@
            },
            None => forall|m: int|
                0 <= m < categories.deep_view().len() ==> categories.deep_view()[m].name != key@,
        },
{
    let n = categories.len();
    let mut j: usize = 0;
    while j < n
        invariant
            j <= n,
            n == categories.len(),
            forall|m: int| 0 <= m < j ==> categories.deep_view()[m].name != key@,
        decreases n - j,
    {
        proof {
            assert(categories.deep_view()[j as int] == categories@[j as int]@);
        }
        if str_eq(categories[j].get_name().as_str(), key) {
            return Some(j);
        }
        j = j + 1;
    }
    None
}

} // verus!
