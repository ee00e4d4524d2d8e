//! Items and their mathematical models.
//!
//! An item is opaque to the store beyond a fixed attribute set: a type
//! identifier, two numeric fields, two optional display fields, ordered lore
//! lines, ordered enchantments and an unordered set of flag strings (kept here
//! in the order received). One distinguished type identifier, the empty
//! marker, stands for "logically empty": a stored record bearing it is treated
//! as an empty slot that is only kept for cooldown bookkeeping.

use vstd::prelude::*;

verus! {

/// An enchantment: a name and an integer level.
#[derive(Debug)]
pub struct Enchantment {
    pub name: String,
    pub level: i32,
}

/// The model of an enchantment.
pub struct EnchantModel {
    pub name: Seq<char>,
    pub level: i32,
}

impl View for Enchantment {
    type V = EnchantModel;

    open spec fn view(&self) -> EnchantModel {
        EnchantModel { name: self.name@, level: self.level }
    }
}

impl DeepView for Enchantment {
    type V = EnchantModel;

    open spec fn deep_view(&self) -> EnchantModel {
        self.view()
    }
}

impl Clone for Enchantment {
    fn clone(&self) -> (r: Self)
        ensures
            r == *self,
    {
        Enchantment { name: self.name.clone(), level: self.level }
    }
}

/// One item, as it travels over the wire and into a slot record.
#[derive(Debug)]
pub struct Item {
    pub type_id: String,
    pub amount: i32,
    pub durability: i32,
    pub display_name: Option<String>,
    pub custom_model_data: Option<i32>,
    pub lore: Vec<String>,
    pub enchants: Vec<Enchantment>,
    pub flags: Vec<String>,
}

/// The model of an item: every field taken to its mathematical value.
pub struct ItemModel {
    pub type_id: Seq<char>,
    pub amount: i32,
    pub durability: i32,
    pub display_name: Option<Seq<char>>,
    pub custom_model_data: Option<i32>,
    pub lore: Seq<Seq<char>>,
    pub enchants: Seq<EnchantModel>,
    pub flags: Seq<Seq<char>>,
}

impl View for Item {
    type V = ItemModel;

    open spec fn view(&self) -> ItemModel {
        ItemModel {
            type_id: self.type_id@,
            amount: self.amount,
            durability: self.durability,
            display_name: self.display_name.deep_view(),
            custom_model_data: self.custom_model_data,
            lore: self.lore.deep_view(),
            enchants: self.enchants.deep_view(),
            flags: self.flags.deep_view(),
        }
    }
}

impl DeepView for Item {
    type V = ItemModel;

    open spec fn deep_view(&self) -> ItemModel {
        self.view()
    }
}

impl Clone for Item {
    fn clone(&self) -> (r: Self)
        ensures
            r@ == self@,
    {
        let r = Item {
            type_id: self.type_id.clone(),
            amount: self.amount,
            durability: self.durability,
            display_name: clone_opt_string(&self.display_name),
            custom_model_data: self.custom_model_data,
            lore: clone_strings(&self.lore),
            enchants: clone_enchants(&self.enchants),
            flags: clone_strings(&self.flags),
        };
        assert(r@.lore =~= self@.lore);
        assert(r@.flags =~= self@.flags);
        assert(r@.enchants =~= self@.enchants);
        r
    }
}

fn clone_opt_string(s: &Option<String>) -> (r: Option<String>)
    ensures
        r.deep_view() == s.deep_view(),
{
    match s {
        Some(v) => Some(v.clone()),
        None => None,
    }
}

fn clone_strings(v: &Vec<String>) -> (r: Vec<String>)
    ensures
        r.deep_view() == v.deep_view(),
{
    let mut r: Vec<String> = Vec::new();
    let mut i: usize = 0;
    while i < v.len()
        invariant
            i <= v.len(),
            r@.len() == i as int,
            forall|j: int| 0 <= j < i ==> r@[j] == v@[j],
        decreases v.len() - i,
    {
        r.push(v[i].clone());
        i = i + 1;
    }
    assert(r.deep_view() =~= v.deep_view());
    r
}

fn clone_enchants(v: &Vec<Enchantment>) -> (r: Vec<Enchantment>)
    ensures
        r.deep_view() == v.deep_view(),
{
    let mut r: Vec<Enchantment> = Vec::new();
    let mut i: usize = 0;
    while i < v.len()
        invariant
            i <= v.len(),
            r@.len() == i as int,
            forall|j: int| 0 <= j < i ==> r@[j] == v@[j],
        decreases v.len() - i,
    {
        r.push(v[i].clone());
        i = i + 1;
    }
    assert(r.deep_view() =~= v.deep_view());
    r
}

/// The type identifier of the empty marker.
pub open spec fn marker_type() -> Seq<char> {
    "AIR"@
}

/// An item model stands for "logically empty" exactly when it bears the
/// marker type identifier.
pub open spec fn is_marker(m: ItemModel) -> bool {
    m.type_id == marker_type()
}

/// Tests whether an item bears the empty-marker type identifier.
pub fn is_marker_item(it: &Item) -> (r: bool)
    ensures
        r == is_marker(it@),
{
    let m = String::from_str("AIR");
    it.type_id == m
}

/// The record body written by a cooldown-bearing clear: the marker type with
/// unit numeric fields and every other attribute empty.
pub open spec fn marker_item_model() -> ItemModel {
    ItemModel {
        type_id: marker_type(),
        amount: 1,
        durability: 1,
        display_name: None,
        custom_model_data: None,
        lore: Seq::empty(),
        enchants: Seq::empty(),
        flags: Seq::empty(),
    }
}

/// Builds the marker item that a clear writes into a slot record.
pub fn marker_item() -> (it: Item)
    ensures
        it@ == marker_item_model(),
{
    let it = Item {
        type_id: String::from_str("AIR"),
        amount: 1,
        durability: 1,
        display_name: None,
        custom_model_data: None,
        lore: Vec::new(),
        enchants: Vec::new(),
        flags: Vec::new(),
    };
    assert(it@.lore =~= marker_item_model().lore);
    assert(it@.enchants =~= marker_item_model().enchants);
    assert(it@.flags =~= marker_item_model().flags);
    it
}

} // verus!
