//! The vault data model, and the small rules the front end applies to
//! it: classifying a section field as a TOTP secret, dropping fields
//! with empty values, and matching listed items against search terms.
//!
//! The records themselves are plain values; the backend process that
//! fills them lives outside this crate.

use vstd::prelude::*;
use vstd::string::StringSliceAdditionalSpecFns;

verus! {

/// The account the vaults belong to.
#[derive(Clone, Debug)]
pub struct AccountMetadata {
    pub name: String,
    pub domain: String,
}

/// One vault, by identifier and display name.
#[derive(Clone, Debug)]
pub struct VaultMetadata {
    pub uuid: String,
    pub name: String,
}

/// One listed item, as search results show it.
#[derive(Clone, Debug)]
pub struct ItemMetadata {
    pub uuid: String,
    pub vault_uuid: String,
    pub title: String,
    pub account_info: String,
}

/// A full item: its fields, and its sections with their fields.
#[derive(Clone, Debug)]
pub struct Item {
    pub title: String,
    pub fields: Vec<ItemField>,
    pub sections: Vec<ItemSection>,
}

/// One field of an item.
#[derive(Clone, Debug)]
pub struct ItemField {
    pub name: String,
    pub field_type: ItemFieldType,
    pub value: String,
}

/// What kind of value a field holds.
#[derive(Clone, Copy, Debug, PartialEq, Eq, Structural)]
pub enum ItemFieldType {
    /// The field stores a TOTP secret; the front end replaces its
    /// value with a generated code when showing it.
    Totp,
    /// Any other field.
    Unknown,
}

/// One named section of an item.
#[derive(Clone, Debug)]
pub struct ItemSection {
    pub name: String,
    pub fields: Vec<ItemField>,
}

/// The five bytes of `TOTP_`.
pub open spec fn totp_marker() -> Seq<u8> {
    seq![('T' as u8), ('O' as u8), ('T' as u8), ('P' as u8), ('_' as u8)]
}

/// The kind a section field's key gives it: keys marked `TOTP_` hold
/// TOTP secrets, all others are unknown.
pub open spec fn field_type_spec(key: Seq<u8>) -> ItemFieldType {
    if key.len() >= 5 && key.subrange(0, 5) == totp_marker() {
        ItemFieldType::Totp
    } else {
        ItemFieldType::Unknown
    }
}

/// Classify a section field by its key.
pub fn field_type_for(key: &str) -> (r: ItemFieldType)
    ensures
        r == field_type_spec(key.spec_bytes()),
{
    let v = key.as_bytes();
    if v.len() < 5 {
        return ItemFieldType::Unknown;
    }
    let head = v[0] == ('T' as u8) && v[1] == ('O' as u8) && v[2] == ('T' as u8) && v[3] == (
    'P' as u8) && v[4] == ('_' as u8);
    if head {
        proof {
            assert(v@.subrange(0, 5) =~= totp_marker());
        }
        ItemFieldType::Totp
    } else {
        proof {
            if v@.subrange(0, 5) == totp_marker() {
                assert(forall|j: int| 0 <= j < 5 ==> v@.subrange(0, 5)[j] == #[trigger] v@[j]);
            }
        }
        ItemFieldType::Unknown
    }
}

/// The display name a detail field gets: its designation, or its raw
/// name where no designation is set.
pub fn field_display_name(designation: String, name: String) -> (r: String)
    ensures
        r@ == if designation@.len() == 0 {
            name@
        } else {
            designation@
        },
{
    if designation.as_str().is_empty() {
        name
    } else {
        designation
    }
}

/// The fields whose values are not empty, in order.
pub open spec fn nonempty_fields_spec(s: Seq<ItemField>) -> Seq<ItemField>
    decreases s.len(),
{
    if s.len() == 0 {
        seq![]
    } else if s[0].value@.len() != 0 {
        seq![s[0]] + nonempty_fields_spec(s.drop_first())
    } else {
        nonempty_fields_spec(s.drop_first())
    }
}

/// Drop every field whose value is empty, keeping the order; the
/// front end hides such fields entirely.
#[verifier::loop_isolation(false)]
pub fn nonempty_fields(fields: Vec<ItemField>) -> (r: Vec<ItemField>)
    ensures
        r@ == nonempty_fields_spec(fields@),
{
    let ghost orig = fields@;
    let mut rest = fields;
    let mut out: Vec<ItemField> = Vec::new();
    assert(orig.skip(0) =~= orig);
    let ghost k: int = 0;
    while rest.len() > 0
        invariant
            0 <= k <= orig.len(),
            rest@ == orig.skip(k),
            nonempty_fields_spec(orig) == out@ + nonempty_fields_spec(rest@),
        decreases rest@.len(),
    {
        assert(rest@.drop_first() =~= orig.skip(k + 1));
        let f = rest.remove(0);
        assert(rest@ =~= orig.skip(k + 1));
        if !f.value.as_str().is_empty() {
            out.push(f);
        }
        proof {
            k = k + 1;
        }
    }
    assert(rest@ =~= Seq::<ItemField>::empty());
    assert(nonempty_fields_spec(rest@) =~= Seq::<ItemField>::empty());
    assert(out@ + nonempty_fields_spec(rest@) =~= out@);
    out
}

/// What `str::to_lowercase` yields for a string's characters.
pub uninterp spec fn lower_of(s: Seq<char>) -> Seq<char>;

/// Relies on `str::to_lowercase`: the lower-case form of the string,
/// a function of its characters alone.
#[verifier::external_body]
fn lowercase(s: &str) -> (r: String)
    ensures
        r@ == lower_of(s@),
{
    s.to_lowercase()
}

/// The pattern occurs as a contiguous run somewhere in the string.
pub open spec fn seq_contains(hay: Seq<char>, needle: Seq<char>) -> bool {
    exists|i: int|
        0 <= i && i + needle.len() <= hay.len() && #[trigger] hay.subrange(i, i + needle.len())
            == needle
}

/// Relies on `str::contains`: true exactly when the pattern matches a
/// contiguous substring of the string.
#[verifier::external_body]
fn str_contains(hay: &str, needle: &str) -> (r: bool)
    ensures
        r == seq_contains(hay@, needle@),
{
    hay.contains(needle)
}

/// One backend listing, with everything term matching reads: the
/// item's identifiers, its display strings, and its URLs and tags.
#[derive(Clone, Debug)]
pub struct ListItem {
    pub uuid: String,
    pub vault_uuid: String,
    pub title: String,
    pub account_info: String,
    pub urls: Vec<String>,
    pub tags: Vec<String>,
}

/// Some string of the run contains the needle once lower-cased.
pub open spec fn any_lower_contains(items: Seq<String>, needle: Seq<char>) -> bool {
    exists|i: int| 0 <= i < items.len() && #[trigger] seq_contains(lower_of(items[i]@), needle)
}

/// Whether a listing matches the lower-cased terms: an identifier
/// equals them exactly, or a URL, the title, the account info or a tag
/// contains them case-insensitively.
pub open spec fn list_item_matches(e: ListItem, lt: Seq<char>) -> bool {
    e.uuid@ == lt || e.vault_uuid@ == lt || any_lower_contains(e.urls@, lt) || seq_contains(
        lower_of(e.title@),
        lt,
    ) || seq_contains(lower_of(e.account_info@), lt) || any_lower_contains(e.tags@, lt)
}

impl ListItem {
    /// Whether this listing matches the search terms, compared as the
    /// backend compares: the terms lower-cased once, identifiers
    /// exactly, the display strings case-insensitively.
    #[verifier::loop_isolation(false)]
    pub fn matches(&self, terms: &str) -> (r: bool)
        ensures
            r == list_item_matches(*self, lower_of(terms@)),
    {
        let lt = lowercase(terms);
        if self.uuid == lt || self.vault_uuid == lt {
            return true;
        }
        let lt_title = lowercase(self.title.as_str());
        if str_contains(lt_title.as_str(), lt.as_str()) {
            return true;
        }
        let lt_info = lowercase(self.account_info.as_str());
        if str_contains(lt_info.as_str(), lt.as_str()) {
            return true;
        }
        let mut i: usize = 0;
        while i < self.urls.len()
            invariant
                i <= self.urls@.len(),
                forall|j: int| 0 <= j < i ==> !seq_contains(lower_of(#[trigger] self.urls@[j]@), lower_of(terms@)),
            decreases self.urls@.len() - i,
        {
            let lu = lowercase(self.urls[i].as_str());
            if str_contains(lu.as_str(), lt.as_str()) {
                assert(seq_contains(lower_of(self.urls@[i as int]@), lower_of(terms@)));
                return true;
            }
            i += 1;
        }
        assert(!any_lower_contains(self.urls@, lower_of(terms@)));
        let mut j: usize = 0;
        while j < self.tags.len()
            invariant
                j <= self.tags@.len(),
                forall|m: int| 0 <= m < j ==> !seq_contains(lower_of(#[trigger] self.tags@[m]@), lower_of(terms@)),
            decreases self.tags@.len() - j,
        {
            let ltag = lowercase(self.tags[j].as_str());
            if str_contains(ltag.as_str(), lt.as_str()) {
                assert(seq_contains(lower_of(self.tags@[j as int]@), lower_of(terms@)));
                return true;
            }
            j += 1;
        }
        assert(!any_lower_contains(self.tags@, lower_of(terms@)));
        false
    }
}

/// The listings that match the lower-cased terms, in order.
pub open spec fn matching_items_spec(s: Seq<ListItem>, lt: Seq<char>) -> Seq<ListItem>
    decreases s.len(),
{
    if s.len() == 0 {
        seq![]
    } else if list_item_matches(s[0], lt) {
        seq![s[0]] + matching_items_spec(s.drop_first(), lt)
    } else {
        matching_items_spec(s.drop_first(), lt)
    }
}

/// Filter the backend's listings by optional search terms, keeping the
/// order; without terms everything is kept.
#[verifier::loop_isolation(false)]
pub fn filter_items(items: Vec<ListItem>, terms: Option<&str>) -> (r: Vec<ListItem>)
    ensures
        match terms {
            None => r@ == items@,
            Some(t) => r@ == matching_items_spec(items@, lower_of(t@)),
        },
{
    let t = match terms {
        None => {
            return items;
        },
        Some(t) => t,
    };
    let ghost orig = items@;
    let mut rest = items;
    let mut out: Vec<ListItem> = Vec::new();
    assert(orig.skip(0) =~= orig);
    let ghost k: int = 0;
    while rest.len() > 0
        invariant
            0 <= k <= orig.len(),
            rest@ == orig.skip(k),
            matching_items_spec(orig, lower_of(t@)) == out@ + matching_items_spec(rest@, lower_of(t@)),
        decreases rest@.len(),
    {
        assert(rest@.drop_first() =~= orig.skip(k + 1));
        let e = rest.remove(0);
        assert(rest@ =~= orig.skip(k + 1));
        if e.matches(t) {
            out.push(e);
        }
        proof {
            k = k + 1;
        }
    }
    assert(rest@ =~= Seq::<ListItem>::empty());
    assert(matching_items_spec(rest@, lower_of(t@)) =~= Seq::<ListItem>::empty());
    assert(out@ + matching_items_spec(rest@, lower_of(t@)) =~= out@);
    out
}

} // verus!
