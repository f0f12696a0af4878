//! Feature datasets: containers of feature classes.
use vstd::prelude::*;
use crate::catalog::{CatalogItem, CatalogItemType, CatalogItemView, items_view};
use crate::error::{GdbError, format_error};
use crate::text::{str_eq, to_string};
use crate::workspace::Geodatabase;

verus! {

/// A feature dataset (a container of the feature classes registered under it).
#[derive(Clone)]
pub struct FeatureDataset {
    pub item: CatalogItem,
}

/// Whether an item is a feature class of the dataset `ds`.
pub open spec fn member_of(i: CatalogItemView, ds: Seq<char>) -> bool {
    i.item_type == CatalogItemType::FeatureClass && i.parent_dataset == Some(ds)
}

/// The feature classes of the dataset `ds`, in catalog order.
pub open spec fn members(items: Seq<CatalogItemView>, ds: Seq<char>) -> Seq<CatalogItemView>
    decreases items.len(),
{
    if items.len() == 0 {
        Seq::empty()
    } else {
        let prev = members(items.drop_last(), ds);
        if member_of(items.last(), ds) { prev.push(items.last()) } else { prev }
    }
}

/// The feature classes of a dataset are exactly the workspace's feature classes whose
/// parent dataset is that dataset: each one is a feature class registered under `ds`, and
/// every such feature class is among them.
pub proof fn law_members(items: Seq<CatalogItemView>, ds: Seq<char>)
    ensures
        forall|j: int| 0 <= j < members(items, ds).len() ==> {
            &&& (#[trigger] members(items, ds)[j]).item_type == CatalogItemType::FeatureClass
            &&& members(items, ds)[j].parent_dataset == Some(ds)
        },
        forall|i: int| 0 <= i < items.len() && (#[trigger] items[i]).item_type == CatalogItemType::FeatureClass
            && items[i].parent_dataset == Some(ds) ==> members(items, ds).contains(items[i]),
    decreases items.len(),
{
    if items.len() > 0 {
        let q = items.drop_last();
        law_members(q, ds);
        let prev = members(q, ds);
        let r = members(items, ds);
        assert forall|i: int| 0 <= i < items.len() && (#[trigger] items[i]).item_type == CatalogItemType::FeatureClass
            && items[i].parent_dataset == Some(ds) implies r.contains(items[i]) by {
            if i < items.len() - 1 {
                assert(items[i] == q[i]);
                let w = choose|w: int| 0 <= w < prev.len() && prev[w] == q[i];
                assert(r[w] == prev[w]);
            } else {
                assert(r[r.len() - 1] == items[i]);
            }
        }
    }
}

/// The feature class that a lookup by name finds in a dataset is a feature class registered
/// under that dataset, with that name, and no earlier item is one.
pub proof fn law_first_member(items: Seq<CatalogItemView>, ds: Seq<char>, name: Seq<char>)
    ensures
        first_member(items, ds, name) matches Some(i) ==> {
            &&& i < items.len()
            &&& items[i as int].item_type == CatalogItemType::FeatureClass
            &&& items[i as int].parent_dataset == Some(ds)
            &&& items[i as int].name == name
        },
        first_member(items, ds, name) is None ==> forall|i: int| 0 <= i < items.len() ==>
            !((#[trigger] items[i]).item_type == CatalogItemType::FeatureClass && items[i].parent_dataset == Some(ds) && items[i].name == name),
{
    if exists|i: int| 0 <= i < items.len() && member_of(items[i], ds) && items[i].name == name {
        let k = choose|i: int| 0 <= i < items.len() && member_of(items[i], ds) && items[i].name == name;
        let w = choose|i: nat| i < items.len() && member_of(items[i as int], ds) && items[i as int].name == name
            && forall|j: int| 0 <= j < i ==> !(member_of(items[j], ds) && items[j].name == name);
        if !(w < items.len() && member_of(items[w as int], ds) && items[w as int].name == name) {
            lemma_first_exists(items, ds, name, k);
        }
    }
}

/// Among the matching items there is a first one.
proof fn lemma_first_exists(items: Seq<CatalogItemView>, ds: Seq<char>, name: Seq<char>, k: int)
    requires
        0 <= k < items.len(),
        member_of(items[k], ds) && items[k].name == name,
    ensures
        exists|i: nat| i < items.len() && member_of(items[i as int], ds) && items[i as int].name == name
            && forall|j: int| 0 <= j < i ==> !(member_of(items[j], ds) && items[j].name == name),
    decreases k,
{
    if exists|j: int| 0 <= j < k && member_of(items[j], ds) && items[j].name == name {
        let j = choose|j: int| 0 <= j < k && member_of(items[j], ds) && items[j].name == name;
        lemma_first_exists(items, ds, name, j);
    } else {
        assert(forall|j: int| 0 <= j < (k as nat) ==> !(member_of(items[j], ds) && items[j].name == name));
    }
}

/// The index of the first feature class of the dataset `ds` named `name`.
pub open spec fn first_member(items: Seq<CatalogItemView>, ds: Seq<char>, name: Seq<char>) -> Option<nat> {
    if exists|i: int| 0 <= i < items.len() && member_of(items[i], ds) && items[i].name == name {
        Some(choose|i: nat| i < items.len() && member_of(items[i as int], ds) && items[i as int].name == name
            && forall|j: int| 0 <= j < i ==> !(member_of(items[j], ds) && items[j].name == name))
    } else {
        None
    }
}

/// Whether an item is a feature class of the dataset named `ds`.
fn is_member(i: &CatalogItem, ds: &str) -> (b: bool)
    ensures
        b == member_of(i@, ds@),
{
    if i.item_type != CatalogItemType::FeatureClass {
        return false;
    }
    match &i.parent_dataset {
        Some(p) => str_eq(p.as_str(), ds),
        None => false,
    }
}

impl FeatureDataset {
    /// The dataset's name.
    pub fn name(&self) -> (r: &str)
        ensures
            r@ == self.item.name@,
    {
        self.item.name.as_str()
    }

    /// The feature classes of this dataset in the workspace, in catalog order.
    pub fn member_items(&self, gdb: &Geodatabase) -> (r: Vec<CatalogItem>)
        ensures
            items_view(r@) == members(gdb.items_view(), self.item.name@),
            forall|j: int| 0 <= j < r@.len() ==> (#[trigger] r@[j]@).item_type == CatalogItemType::FeatureClass
                && r@[j]@.parent_dataset == Some(self.item.name@),
    {
        let all = gdb.items();
        let ghost v = items_view(all@);
        let mut out: Vec<CatalogItem> = Vec::new();
        let mut i: usize = 0;
        while i < all.len()
            invariant
                v == items_view(all@),
                v == gdb.items_view(),
                i <= all@.len(),
                items_view(out@) == members(v.take(i as int), self.item.name@),
            decreases all@.len() - i,
        {
            proof {
                assert(v.take(i + 1).drop_last() =~= v.take(i as int));
            }
            let ghost before = items_view(out@);
            if is_member(&all[i], self.item.name.as_str()) {
                let c = all[i].clone();
                out.push(c);
                assert(items_view(out@) =~= before.push(c@));
            }
            i = i + 1;
        }
        assert(v.take(i as int) =~= v);
        proof {
            law_members(v, self.item.name@);
            assert forall|j: int| 0 <= j < out@.len() implies (#[trigger] out@[j]@).item_type == CatalogItemType::FeatureClass
                && out@[j]@.parent_dataset == Some(self.item.name@) by {
                assert(items_view(out@)[j] == out@[j]@);
            }
        }
        out
    }

    /// The feature class of this dataset named `name`.
    #[verifier::rlimit(40)]
    pub fn find_member(&self, gdb: &Geodatabase, name: &str) -> (res: Result<CatalogItem, GdbError>)
        ensures
            match first_member(gdb.items_view(), self.item.name@, name@) {
                Some(i) => res matches Ok(x) && x@ == gdb.items_view()[i as int],
                None => res matches Err(GdbError::NotFound(s))
                    && s@ == "要素数据集 "@ + self.item.name@ + " 中未找到要素类 "@ + name@,
            },
            res matches Ok(x) ==> x@.item_type == CatalogItemType::FeatureClass
                && x@.parent_dataset == Some(self.item.name@) && x@.name == name@,
    {
        let all = gdb.items();
        let ghost v = items_view(all@);
        let ds = self.item.name.as_str();
        let mut i: usize = 0;
        while i < all.len()
            invariant
                v == items_view(all@),
                v == gdb.items_view(),
                ds@ == self.item.name@,
                i <= all@.len(),
                forall|j: int| 0 <= j < i ==> !(member_of(v[j], ds@) && v[j].name == name@),
            decreases all@.len() - i,
        {
            if is_member(&all[i], ds) && str_eq(all[i].name.as_str(), name) {
                proof {
                    let w = choose|k: nat| k < v.len() && member_of(v[k as int], ds@) && v[k as int].name == name@
                        && forall|j: int| 0 <= j < k ==> !(member_of(v[j], ds@) && v[j].name == name@);
                    assert((i as nat) < v.len() && member_of(v[i as int], ds@) && v[i as int].name == name@
                        && forall|j: int| 0 <= j < i ==> !(member_of(v[j], ds@) && v[j].name == name@));
                    if w > i {
                        assert(!(member_of(v[i as int], ds@) && v[i as int].name == name@));
                    }
                }
                proof { law_first_member(v, ds@, name@); }
                return Ok(all[i].clone());
            }
            i = i + 1;
        }
        let mut msg = to_string("要素数据集 ");
        msg.append(ds);
        msg.append(" 中未找到要素类 ");
        msg.append(name);
        Err(GdbError::NotFound(msg))
    }
}

} // verus!
