//! The main registry for sheets, keyed by name. Name uniqueness is enforced
//! at insertion: adding a sheet whose name is already registered is rejected
//! and changes nothing, so every name reaches exactly one sheet.

use vstd::prelude::*;
use vstd::string::*;

use crate::encoding::str_eq;
use crate::sheet::{Sheet, SheetView};

verus! {

broadcast use crate::views::group_deep_view_facts;

/// Registered sheets have pairwise distinct names.
pub open spec fn base_wf(sheets: Seq<SheetView>) -> bool {
    forall|i: int, j: int| 0 <= i < j < sheets.len() ==> sheets[i].name != sheets[j].name
}

pub struct Base {
    sheets: Vec<Sheet>,
}

impl View for Base {
    type V = Seq<SheetView>;

    closed spec fn view(&self) -> Seq<SheetView> {
        self.sheets.deep_view()
    }
}

impl Base {
    /// A new, empty registry.
    pub fn new() -> (r: Self)
        ensures
            r@ == Seq::<SheetView>::empty(),
            base_wf(r@),
    {
        let r = Self { sheets: Vec::new() };
        proof {
            assert(r@ =~= Seq::<SheetView>::empty());
        }
        r
    }

    /// The index of the registered sheet with the given name, if any; with
    /// the uniqueness invariant it is the only one.
    fn sheet_index(&self, name: &str) -> (r: Option<usize>)
        ensures
            r matches Some(i) ==> i < self@.len() && self@[i as int].name == name@ && (forall|
                j: int,
            | 0 <= j < i ==> self@[j].name != name@),
            r is None ==> forall|j: int| 0 <= j < self@.len() ==> self@[j].name != name@,
    {
        let mut i: usize = 0;
        while i < self.sheets.len()
            invariant
                0 <= i <= self@.len(),
                forall|j: int| 0 <= j < i ==> self@[j].name != name@,
            decreases self@.len() - i,
        {
            if str_eq(self.sheets[i].name.as_str(), name) {
                return Some(i);
            }
            i += 1;
        }
        None
    }

    /// Register a sheet. A sheet whose name is already registered is
    /// rejected and the registry is unchanged.
    pub fn add_sheet(&mut self, sheet: Sheet) -> (r: Result<(), String>)
        requires
            base_wf(old(self)@),
        ensures
            base_wf(final(self)@),
            (exists|i: int| 0 <= i < old(self)@.len() && (#[trigger] old(self)@[i]).name
                == sheet@.name) ==> *final(self) == *old(self) && (r matches Err(m) && m@
                == "Sheet with the same name already exists."@),
            (forall|i: int|
                0 <= i < old(self)@.len() ==> (#[trigger] old(self)@[i]).name != sheet@.name)
                ==> r is Ok && final(self)@ == old(self)@.push(sheet@),
    {
        match self.sheet_index(sheet.name.as_str()) {
            Some(_) => Err(String::from_str("Sheet with the same name already exists.")),
            None => {
                let ghost pre = self@;
                let ghost sv = sheet@;
                self.sheets.push(sheet);
                proof {
                    assert(self@ =~= pre.push(sv));
                    assert forall|i: int, j: int| 0 <= i < j < self@.len() implies self@[i].name
                        != self@[j].name by {
                        if j < pre.len() as int {
                            assert(pre[i].name != pre[j].name);
                        } else {
                            assert(self@[j] == sv);
                            assert(pre[i].name != sv.name);
                        }
                    }
                }
                Ok(())
            },
        }
    }

    /// The registered sheet with the given name.
    pub fn get_sheet(&self, name: &str) -> (r: Result<&Sheet, String>)
        ensures
            r matches Ok(s) ==> exists|i: int|
                #![auto]
                0 <= i < self@.len() && self@[i] == s@ && self@[i].name == name@,
            r matches Err(m) ==> (forall|j: int| 0 <= j < self@.len() ==> self@[j].name != name@)
                && m@ == "Sheet not found."@,
    {
        match self.sheet_index(name) {
            Some(i) => Ok(&self.sheets[i]),
            None => Err(String::from_str("Sheet not found.")),
        }
    }

    /// The registered sheet with the given name, mutably.
    pub fn get_sheet_mut(&mut self, name: &str) -> (r: Result<&mut Sheet, String>)
        ensures
            r matches Err(m) ==> *final(self) == *old(self) && (forall|j: int|
                0 <= j < old(self)@.len() ==> old(self)@[j].name != name@) && m@
                == "Sheet not found."@,
            r matches Ok(s) ==> exists|i: int|
                #![auto]
                0 <= i < old(self)@.len() && old(self)@[i].name == name@ && s@ == old(self)@[i]
                    && final(self)@.len() == old(self)@.len() && final(self)@[i] == final(s)@ && (
                forall|j: int|
                    0 <= j < old(self)@.len() && j != i ==> final(self)@[j] == old(self)@[j]),
    {
        match self.sheet_index(name) {
            Some(i) => Ok(&mut self.sheets[i]),
            None => Err(String::from_str("Sheet not found.")),
        }
    }

    /// Unregister the sheet with the given name; the order of the others is
    /// kept.
    pub fn remove_sheet(&mut self, name: &str) -> (r: Result<(), String>)
        requires
            base_wf(old(self)@),
        ensures
            base_wf(final(self)@),
            r matches Err(m) ==> *final(self) == *old(self) && (forall|j: int|
                0 <= j < old(self)@.len() ==> old(self)@[j].name != name@) && m@
                == "Sheet not found."@,
            r is Ok ==> exists|i: int|
                #![auto]
                0 <= i < old(self)@.len() && old(self)@[i].name == name@ && final(self)@ == old(
                    self,
                )@.remove(i),
    {
        match self.sheet_index(name) {
            Some(i) => {
                let ghost pre = self@;
                let _ = self.sheets.remove(i);
                proof {
                    assert(self@ =~= pre.remove(i as int));
                    assert forall|a: int, b: int| 0 <= a < b < self@.len() implies self@[a].name
                        != self@[b].name by {
                        let a0 = if a < i as int {
                            a
                        } else {
                            a + 1
                        };
                        let b0 = if b < i as int {
                            b
                        } else {
                            b + 1
                        };
                        assert(self@[a] == pre[a0]);
                        assert(self@[b] == pre[b0]);
                        assert(pre[a0].name != pre[b0].name);
                    }
                }
                Ok(())
            },
            None => Err(String::from_str("Sheet not found.")),
        }
    }
}

} // verus!
