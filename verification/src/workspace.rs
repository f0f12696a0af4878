//! The workspace (`Geodatabase`): an opened `.gdb` directory and its catalog, from which
//! feature classes, tables and feature datasets are found by name.
use vstd::prelude::*;
use std::path::{Path, PathBuf};
use crate::catalog::{CatalogItem, CatalogItemType, CatalogItemView, items_view};
use crate::error::{GdbError, error_text};
use crate::feature_dataset::FeatureDataset;
use crate::text::{str_eq, to_string};
use crate::table::{path_to_buf, path_contents, path_buf_contents};

verus! {

/// A File Geodatabase workspace.
pub struct Geodatabase {
    root: PathBuf,
    items: Vec<CatalogItem>,
}

/// The items of one kind, in catalog order.
pub open spec fn items_of_type(items: Seq<CatalogItemView>, t: CatalogItemType) -> Seq<CatalogItemView>
    decreases items.len(),
{
    if items.len() == 0 {
        Seq::empty()
    } else {
        let prev = items_of_type(items.drop_last(), t);
        if items.last().item_type == t { prev.push(items.last()) } else { prev }
    }
}

/// The items of one kind are exactly the workspace's items of that kind, in catalog order:
/// each one is of the kind asked for, each item of that kind is among them, and no item of
/// another kind is.
pub proof fn law_items_of_type(items: Seq<CatalogItemView>, t: CatalogItemType)
    ensures
        forall|j: int| 0 <= j < items_of_type(items, t).len() ==> (#[trigger] items_of_type(items, t)[j]).item_type == t,
        forall|i: int| 0 <= i < items.len() && (#[trigger] items[i]).item_type == t ==> items_of_type(items, t).contains(items[i]),
        forall|x: CatalogItemView| items_of_type(items, t).contains(x) ==> items.contains(x) && x.item_type == t,
    decreases items.len(),
{
    if items.len() > 0 {
        let q = items.drop_last();
        law_items_of_type(q, t);
        let prev = items_of_type(q, t);
        let r = items_of_type(items, t);
        assert forall|i: int| 0 <= i < items.len() && (#[trigger] items[i]).item_type == t implies r.contains(items[i]) by {
            if i < items.len() - 1 {
                assert(items[i] == q[i]);
                let w = choose|w: int| 0 <= w < prev.len() && prev[w] == q[i];
                assert(r[w] == prev[w]);
            } else {
                assert(r[r.len() - 1] == items[i]);
            }
        }
        assert forall|x: CatalogItemView| r.contains(x) implies items.contains(x) && x.item_type == t by {
            let w = choose|w: int| 0 <= w < r.len() && r[w] == x;
            if w < prev.len() {
                assert(prev[w] == x);
                assert(prev.contains(x));
                assert(q.contains(x));
                let v = choose|v: int| 0 <= v < q.len() && q[v] == x;
                assert(items[v] == x);
            } else {
                assert(x == items.last());
                assert(items[items.len() - 1] == x);
            }
        }
    }
}

/// Every item is of exactly one kind, so the feature classes, the tables and the feature
/// datasets of a workspace together number as many as its items.
pub proof fn law_kinds_cover_items(items: Seq<CatalogItemView>)
    ensures
        items_of_type(items, CatalogItemType::FeatureClass).len()
            + items_of_type(items, CatalogItemType::Table).len()
            + items_of_type(items, CatalogItemType::FeatureDataset).len() == items.len(),
    decreases items.len(),
{
    if items.len() > 0 {
        law_kinds_cover_items(items.drop_last());
    }
}

/// The index of the first item of kind `t` named `name`.
pub open spec fn first_item(items: Seq<CatalogItemView>, t: CatalogItemType, name: Seq<char>) -> Option<nat> {
    if exists|i: int| 0 <= i < items.len() && items[i].item_type == t && items[i].name == name {
        Some(choose|i: nat| i < items.len() && items[i as int].item_type == t && items[i as int].name == name
            && forall|j: int| 0 <= j < i ==> !(items[j].item_type == t && items[j].name == name))
    } else {
        None
    }
}

/// The views of item references.
pub open spec fn refs_view(v: Seq<&CatalogItem>) -> Seq<CatalogItemView> {
    v.map_values(|r: &CatalogItem| r@)
}

impl Geodatabase {
    /// The items of the workspace.
    pub closed spec fn items_view(&self) -> Seq<CatalogItemView> {
        items_view(self.items@)
    }

    /// What the workspace's directory path holds.
    pub closed spec fn root_view(&self) -> Seq<u8> {
        path_buf_contents(self.root)
    }

    /// The workspace of a directory whose catalog holds `items` (see
    /// [`crate::catalog::enumerate`]); a directory without the system catalog files
    /// (`a00000001.gdbtable` and `.gdbtablx`) is no geodatabase.
    pub fn open(root: &Path, catalog_present: bool, items: Vec<CatalogItem>) -> (res: Result<Geodatabase, GdbError>)
        ensures
            catalog_present ==> (res matches Ok(g) && g.items_view() == items_view(items@)
                && g.root_view() == path_contents(root)),
            !catalog_present ==> (res matches Err(e) && e is NotAGeodatabase
                && error_text(e) == path_display_text(root) + " 不是合法的 File Geodatabase（缺少 a00000001 系统目录）"@),
    {
        if !catalog_present {
            let mut msg = path_display(root);
            msg.append(" 不是合法的 File Geodatabase（缺少 a00000001 系统目录）");
            return Err(GdbError::NotAGeodatabase(msg));
        }
        Ok(Geodatabase { root: path_to_buf(root), items })
    }

    /// The directory of the workspace.
    pub fn path(&self) -> (r: &Path)
        ensures
            path_contents(r) == self.root_view(),
    {
        buf_as_path(&self.root)
    }

    /// All catalog items.
    pub fn items(&self) -> (r: &[CatalogItem])
        ensures
            items_view(r@) == self.items_view(),
    {
        self.items.as_slice()
    }

    /// The items of one kind, in catalog order.
    fn of_type(&self, t: CatalogItemType) -> (r: Vec<&CatalogItem>)
        ensures
            refs_view(r@) == items_of_type(self.items_view(), t),
    {
        let ghost v = items_view(self.items@);
        let mut out: Vec<&CatalogItem> = Vec::new();
        let mut i: usize = 0;
        while i < self.items.len()
            invariant
                v == items_view(self.items@),
                i <= self.items@.len(),
                refs_view(out@) == items_of_type(v.take(i as int), t),
            decreases self.items@.len() - i,
        {
            proof {
                assert(v.take(i + 1).drop_last() =~= v.take(i as int));
            }
            let ghost before = refs_view(out@);
            let item = &self.items[i];
            if item.item_type == t {
                out.push(item);
                assert(refs_view(out@) =~= before.push(item@));
            }
            i = i + 1;
        }
        assert(v.take(i as int) =~= v);
        out
    }

    /// The feature classes (stand-alone and in feature datasets).
    pub fn feature_classes(&self) -> (r: Vec<&CatalogItem>)
        ensures
            refs_view(r@) == items_of_type(self.items_view(), CatalogItemType::FeatureClass),
            forall|j: int| 0 <= j < r@.len() ==> (#[trigger] r@[j]).item_type == CatalogItemType::FeatureClass,
    {
        proof { law_items_of_type(self.items_view(), CatalogItemType::FeatureClass); }
        let r = self.of_type(CatalogItemType::FeatureClass);
        assert forall|j: int| 0 <= j < r@.len() implies (#[trigger] r@[j]).item_type == CatalogItemType::FeatureClass by {
            assert(refs_view(r@)[j] == r@[j]@);
        }
        r
    }

    /// The stand-alone tables.
    pub fn tables(&self) -> (r: Vec<&CatalogItem>)
        ensures
            refs_view(r@) == items_of_type(self.items_view(), CatalogItemType::Table),
            forall|j: int| 0 <= j < r@.len() ==> (#[trigger] r@[j]).item_type == CatalogItemType::Table,
    {
        proof { law_items_of_type(self.items_view(), CatalogItemType::Table); }
        let r = self.of_type(CatalogItemType::Table);
        assert forall|j: int| 0 <= j < r@.len() implies (#[trigger] r@[j]).item_type == CatalogItemType::Table by {
            assert(refs_view(r@)[j] == r@[j]@);
        }
        r
    }

    /// The feature datasets.
    pub fn feature_datasets(&self) -> (r: Vec<&CatalogItem>)
        ensures
            refs_view(r@) == items_of_type(self.items_view(), CatalogItemType::FeatureDataset),
            forall|j: int| 0 <= j < r@.len() ==> (#[trigger] r@[j]).item_type == CatalogItemType::FeatureDataset,
    {
        proof { law_items_of_type(self.items_view(), CatalogItemType::FeatureDataset); }
        let r = self.of_type(CatalogItemType::FeatureDataset);
        assert forall|j: int| 0 <= j < r@.len() implies (#[trigger] r@[j]).item_type == CatalogItemType::FeatureDataset by {
            assert(refs_view(r@)[j] == r@[j]@);
        }
        r
    }

    /// The first item of kind `ty` named `name`.
    #[verifier::spinoff_prover]
    pub fn find(&self, ty: CatalogItemType, name: &str) -> (res: Result<CatalogItem, GdbError>)
        ensures
            match first_item(self.items_view(), ty, name@) {
                Some(i) => res matches Ok(x) && x@ == self.items_view()[i as int],
                None => res matches Err(GdbError::NotFound(s)) && s@ == name@,
            },
    {
        let ghost v = items_view(self.items@);
        let mut i: usize = 0;
        while i < self.items.len()
            invariant
                v == items_view(self.items@),
                i <= self.items@.len(),
                forall|j: int| 0 <= j < i ==> !(v[j].item_type == ty && v[j].name == name@),
            decreases self.items@.len() - i,
        {
            let item = &self.items[i];
            if item.item_type == ty && str_eq(item.name.as_str(), name) {
                proof {
                    let w = choose|k: nat| k < v.len() && v[k as int].item_type == ty && v[k as int].name == name@
                        && forall|j: int| 0 <= j < k ==> !(v[j].item_type == ty && v[j].name == name@);
                    assert((i as nat) < v.len() && v[i as int].item_type == ty && v[i as int].name == name@
                        && forall|j: int| 0 <= j < i ==> !(v[j].item_type == ty && v[j].name == name@));
                    if w > i {
                        assert(!(v[i as int].item_type == ty && v[i as int].name == name@));
                    }
                }
                return Ok(item.clone());
            }
            i = i + 1;
        }
        Err(GdbError::NotFound(to_string(name)))
    }

    /// Opens a feature dataset (a container of feature classes).
    pub fn open_feature_dataset(&self, name: &str) -> (res: Result<FeatureDataset, GdbError>)
        ensures
            match first_item(self.items_view(), CatalogItemType::FeatureDataset, name@) {
                Some(i) => res matches Ok(d) && d.item@ == self.items_view()[i as int],
                None => res matches Err(GdbError::NotFound(s)) && s@ == name@,
            },
    {
        match self.find(CatalogItemType::FeatureDataset, name) {
            Ok(item) => Ok(FeatureDataset { item }),
            Err(e) => Err(e),
        }
    }
}

/// What `Path::display` shows of a path, as text.
pub uninterp spec fn path_display_text(p: &Path) -> Seq<char>;

/// Calls `Path::display` and turns what it shows into a `String` (`to_string`). The text
/// depends on the path alone (non-UTF-8 parts are shown lossily); nothing more is claimed.
#[verifier::external_body]
fn path_display(p: &Path) -> (s: String)
    ensures
        s@ == path_display_text(p),
{
    p.display().to_string()
}

/// Calls `PathBuf::as_path`, which borrows the buffer as a path: the borrowed path holds
/// what the buffer holds. Nothing else is claimed.
#[verifier::external_body]
fn buf_as_path(p: &PathBuf) -> (r: &Path)
    ensures
        path_contents(r) == path_buf_contents(*p),
{
    p.as_path()
}

} // verus!
