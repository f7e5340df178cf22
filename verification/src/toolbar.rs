use vstd::prelude::*;
use vstd::string::StringExecFns;

use crate::error_code::same_text;
use crate::ffi_string::OwnedString;
use crate::ffi_values::{holds_text, FfiArray};

verus! {

#[verifier::external_type_specification]
#[verifier::external_body]
pub struct ExTomlValue(toml::Value);

#[verifier::external_type_specification]
#[verifier::external_body]
pub struct ExTomlError(toml::de::Error);

#[verifier::external_type_specification]
#[verifier::external_body]
#[verifier::reject_recursive_types(K)]
#[verifier::reject_recursive_types(V)]
pub struct ExTomlMap<K, V>(toml::map::Map<K, V>);

#[verifier::external_type_specification]
#[verifier::external_body]
pub struct ExTomlDatetime(toml::value::Datetime);

/// A TOML value with its kind told apart: a table, a date-time, or another
/// kind of value. The contents stay as the `toml` crate holds them.
pub enum TomlValue {
    Table(toml::map::Map<String, toml::Value>),
    Datetime(toml::value::Datetime),
    Other(toml::Value),
}

/// Whether `toml::from_str::<toml::Value>` accepts the text as a TOML
/// document; the TOML grammar decides it, from the text alone.
pub uninterp spec fn toml_document_parses(text: Seq<char>) -> bool;

/// `toml::from_str::<toml::Value>(text)`: parses the text as a TOML
/// document, and tells the kind of the value apart. Claimed: it succeeds
/// exactly on the texts that the grammar accepts, and what it gives is a
/// table or a date-time. By the crate's source (`de.rs`, `Deserializer`),
/// the root of a parsed document is a table, which the value's visitor
/// (`value.rs`, `visit_map`) turns into a table, or into a date-time when
/// its first key is the crate's private date-time field.
#[verifier::external_body]
fn parse_toml_value(text: &str) -> (r: Result<TomlValue, toml::de::Error>)
    ensures
        r is Ok <==> toml_document_parses(text@),
        r matches Ok(v) ==> !(v is Other),
{
    match toml::from_str::<toml::Value>(text) {
        Ok(toml::Value::Table(t)) => Ok(TomlValue::Table(t)),
        Ok(toml::Value::Datetime(d)) => Ok(TomlValue::Datetime(d)),
        Ok(other) => Ok(TomlValue::Other(other)),
        Err(e) => Err(e),
    }
}

/// `toml::Value::try_into::<Vec<String>>`: reads a TOML value as an array
/// of strings. Claimed: a table or a date-time is refused. By the crate's
/// source (`value.rs`, `Deserializer for Value`), a table is handed to the
/// visitor as a map and a date-time as a string, and the visitor of a
/// `Vec` takes neither. Of another kind of value nothing is claimed.
#[verifier::external_body]
fn value_into_strings(value: TomlValue) -> (r: Result<Vec<String>, toml::de::Error>)
    ensures
        !(value is Other) ==> r is Err,
{
    let v = match value {
        TomlValue::Table(t) => toml::Value::Table(t),
        TomlValue::Datetime(d) => toml::Value::Datetime(d),
        TomlValue::Other(v) => v,
    };
    v.try_into::<Vec<String>>()
}

/// The text that `Display` gives for a TOML error; nothing is claimed of it.
#[verifier::external_body]
fn toml_error_text(e: &toml::de::Error) -> String {
    format!("{}", e)
}

/// Why a layout given as TOML was refused.
pub enum LayoutError {
    /// The text is not a TOML document: "Failed to parse ids: " and the error.
    InvalidToml(String),
    /// The document is not an array of strings: "ids must be an array of
    /// strings: " and the error.
    NotStringArray(String),
}

/// A toolbar button that a plugin offers.
pub struct ToolbarButtonSpec {
    pub id: String,
    pub label: String,
    pub tooltip: String,
    pub icon: Option<String>,
    /// The name of the plugin's script function that the button runs.
    pub action: String,
}

/// The buttons of the plugins and the layout of each toolbar.
pub struct ToolbarState {
    /// Each button with the id of the plugin that offers it.
    pub buttons: Vec<(String, ToolbarButtonSpec)>,
    /// The button ids shown by each toolbar, by name of toolbar.
    pub layouts: Vec<(String, Vec<String>)>,
}

/// A toolbar button handed to C; an absent icon is the empty string.
pub struct FfiToolbarButton {
    pub id: OwnedString,
    pub label: OwnedString,
    pub tooltip: OwnedString,
    pub icon: OwnedString,
    pub action: OwnedString,
}

pub open spec fn icon_text(icon: Option<String>) -> Seq<char> {
    match icon {
        Some(s) => s@,
        None => seq![],
    }
}

/// `b` is the C form of the button `s`.
pub open spec fn button_matches(b: FfiToolbarButton, s: ToolbarButtonSpec) -> bool {
    &&& holds_text(b.id, s.id@)
    &&& holds_text(b.label, s.label@)
    &&& holds_text(b.tooltip, s.tooltip@)
    &&& holds_text(b.icon, icon_text(s.icon))
    &&& holds_text(b.action, s.action@)
}

impl FfiToolbarButton {
    pub fn from_spec(spec: &ToolbarButtonSpec) -> (r: Self)
        ensures
            button_matches(r, *spec),
    {
        let icon = match &spec.icon {
            Some(s) => s.clone(),
            None => String::new(),
        };
        FfiToolbarButton {
            id: OwnedString::from_string(spec.id.clone()),
            label: OwnedString::from_string(spec.label.clone()),
            tooltip: OwnedString::from_string(spec.tooltip.clone()),
            icon: OwnedString::from_string(icon),
            action: OwnedString::from_string(spec.action.clone()),
        }
    }
}

/// The first button with this id, with its plugin.
pub open spec fn button_by(buttons: Seq<(String, ToolbarButtonSpec)>, id: Seq<char>) -> Option<
    (String, ToolbarButtonSpec),
>
    decreases buttons.len(),
{
    if buttons.len() == 0 {
        None
    } else if buttons[0].1.id@ == id {
        Some(buttons[0])
    } else {
        button_by(buttons.drop_first(), id)
    }
}

/// The ids that toolbar `target` shows: those of the first layout named
/// `target`, none where there is no such layout.
pub open spec fn layout_of(layouts: Seq<(String, Vec<String>)>, target: Seq<char>) -> Seq<Seq<char>>
    decreases layouts.len(),
{
    if layouts.len() == 0 {
        seq![]
    } else if layouts[0].0@ == target {
        crate::field_value::strings_view(layouts[0].1@)
    } else {
        layout_of(layouts.drop_first(), target)
    }
}

/// The buttons shown for the ids, in order, skipping the ids that no button has.
pub open spec fn shown_buttons(buttons: Seq<(String, ToolbarButtonSpec)>, ids: Seq<Seq<char>>) -> Seq<
    ToolbarButtonSpec,
>
    decreases ids.len(),
{
    if ids.len() == 0 {
        seq![]
    } else {
        let prev = shown_buttons(buttons, ids.drop_last());
        match button_by(buttons, ids.last()) {
            Some(b) => prev.push(b.1),
            None => prev,
        }
    }
}


impl ToolbarState {
    /// Where the first button with this id stands.
    fn find_button(&self, id: &str) -> (r: Option<usize>)
        ensures
            match button_by(self.buttons@, id@) {
                Some(b) => r matches Some(i) && i < self.buttons@.len() && self.buttons@[i as int] == b,
                None => r is None,
            },
    {
        let mut k: usize = 0;
        proof {
            assert(self.buttons@.skip(0) =~= self.buttons@);
        }
        while k < self.buttons.len()
            invariant
                k <= self.buttons@.len(),
                button_by(self.buttons@, id@) == button_by(self.buttons@.skip(k as int), id@),
            decreases self.buttons@.len() - k,
        {
            proof {
                assert(self.buttons@.skip(k as int).drop_first() =~= self.buttons@.skip(k + 1));
                assert(self.buttons@.skip(k as int)[0] == self.buttons@[k as int]);
            }
            if same_text(self.buttons[k].1.id.as_str(), id) {
                return Some(k);
            }
            k = k + 1;
        }
        None
    }

    /// Where the first layout named `target` stands.
    fn find_layout(&self, target: &str) -> (r: Option<usize>)
        ensures
            match r {
                Some(i) => i < self.layouts@.len() && layout_of(self.layouts@, target@)
                    == crate::field_value::strings_view(self.layouts@[i as int].1@)
                    && self.layouts@[i as int].0@ == target@,
                None => layout_of(self.layouts@, target@) == Seq::<Seq<char>>::empty()
                    && forall|j: int| 0 <= j < self.layouts@.len() ==> self.layouts@[j].0@ != target@,
            },
    {
        let mut k: usize = 0;
        proof {
            assert(self.layouts@.skip(0) =~= self.layouts@);
        }
        while k < self.layouts.len()
            invariant
                k <= self.layouts@.len(),
                layout_of(self.layouts@, target@) == layout_of(self.layouts@.skip(k as int), target@),
                forall|j: int| 0 <= j < k ==> self.layouts@[j].0@ != target@,
            decreases self.layouts@.len() - k,
        {
            proof {
                assert(self.layouts@.skip(k as int).drop_first() =~= self.layouts@.skip(k + 1));
                assert(self.layouts@.skip(k as int)[0] == self.layouts@[k as int]);
            }
            if same_text(self.layouts[k].0.as_str(), target) {
                return Some(k);
            }
            k = k + 1;
        }
        None
    }

    /// Makes toolbar `target` show `ids`.
    pub fn set_layout(&mut self, target: String, ids: Vec<String>)
        ensures
            final(self).buttons == old(self).buttons,
            layout_of(final(self).layouts@, target@) == crate::field_value::strings_view(ids@),
            forall|t: Seq<char>| t != target@ ==> layout_of(final(self).layouts@, t) == layout_of(
                old(self).layouts@,
                t,
            ),
    {
        let ghost tv = target@;
        let ghost idv = crate::field_value::strings_view(ids@);
        match self.find_layout(target.as_str()) {
            Some(i) => {
                self.layouts.remove(i);
            },
            None => {},
        }
        let ghost mid = self.layouts@;
        proof {
            assert forall|t: Seq<char>| t != tv implies layout_of(mid, t) == layout_of(old(self).layouts@, t) by {
                lemma_layout_remove(old(self).layouts@, mid, tv, t);
            }
        }
        self.layouts.insert(0, (target, ids));
        proof {
            assert(self.layouts@.drop_first() =~= mid);
            assert forall|t: Seq<char>| t != tv implies layout_of(self.layouts@, t) == layout_of(
                old(self).layouts@,
                t,
            ) by {
                assert(self.layouts@[0].0@ == tv);
                assert(layout_of(self.layouts@, t) == layout_of(self.layouts@.drop_first(), t));
                assert(layout_of(mid, t) == layout_of(old(self).layouts@, t));
            }
        }
    }

    /// The buttons that toolbar `target` shows, in the order of its layout,
    /// as C values; an id that no button has is skipped.
    pub fn toolbar_get_buttons(&self, target: &str) -> (r: FfiArray<FfiToolbarButton>)
        ensures
            r.items@.len() == shown_buttons(self.buttons@, layout_of(self.layouts@, target@)).len(),
            forall|i: int| 0 <= i < r.items@.len() ==> button_matches(
                #[trigger] r.items@[i],
                shown_buttons(self.buttons@, layout_of(self.layouts@, target@))[i],
            ),
    {
        let mut out: Vec<FfiToolbarButton> = Vec::new();
        match self.find_layout(target) {
            None => {},
            Some(li) => {
                let ids = &self.layouts[li].1;
                let ghost idv = crate::field_value::strings_view(ids@);
                let mut k: usize = 0;
                while k < ids.len()
                    invariant
                        li < self.layouts@.len(),
                        *ids == self.layouts@[li as int].1,
                        idv == crate::field_value::strings_view(ids@),
                        k <= ids@.len(),
                        out@.len() == shown_buttons(self.buttons@, idv.take(k as int)).len(),
                        forall|i: int| 0 <= i < out@.len() ==> button_matches(
                            #[trigger] out@[i],
                            shown_buttons(self.buttons@, idv.take(k as int))[i],
                        ),
                    decreases ids@.len() - k,
                {
                    proof {
                        assert(idv.take(k + 1).drop_last() =~= idv.take(k as int));
                        assert(idv.take(k + 1).last() == ids@[k as int]@);
                    }
                    match self.find_button(ids[k].as_str()) {
                        Some(bi) => {
                            out.push(FfiToolbarButton::from_spec(&self.buttons[bi].1));
                        },
                        None => {},
                    }
                    k = k + 1;
                }
                proof {
                    assert(idv.take(k as int) =~= idv);
                }
            },
        }
        FfiArray::from_vec(out)
    }

    /// The plugin and the script function of the first button with this id,
    /// which the caller then runs; `None` where no button has the id.
    pub fn toolbar_handle_action(&self, button_id: &str) -> (r: Option<(String, String)>)
        ensures
            match button_by(self.buttons@, button_id@) {
                Some(b) => r matches Some(p) && p.0@ == b.0@ && p.1@ == b.1.action@,
                None => r is None,
            },
    {
        match self.find_button(button_id) {
            Some(i) => Some((self.buttons[i].0.clone(), self.buttons[i].1.action.clone())),
            None => None,
        }
    }

    /// Sets the layout of toolbar `target` from a TOML array of button ids.
    /// The text must parse as a TOML document and read as an array of
    /// strings; else the layouts stay as they were. A parsed document is a
    /// table, which never reads as an array of strings, so every text is
    /// refused: `InvalidToml` when it does not parse, else `NotStringArray`.
    pub fn toolbar_set_layout(&mut self, target: &str, ids_toml_array: &str) -> (r: Result<(), LayoutError>)
        ensures
            final(self).buttons == old(self).buttons,
            final(self).layouts == old(self).layouts,
            r is Err,
            r matches Err(LayoutError::InvalidToml(_)) <==> !toml_document_parses(ids_toml_array@),
            r matches Err(LayoutError::NotStringArray(_)) <==> toml_document_parses(ids_toml_array@),
    {
        let parsed = match parse_toml_value(ids_toml_array) {
            Ok(v) => v,
            Err(e) => {
                let mut m = String::from_str("Failed to parse ids: ");
                m.append(toml_error_text(&e).as_str());
                return Err(LayoutError::InvalidToml(m));
            },
        };
        let ids = match value_into_strings(parsed) {
            Ok(ids) => ids,
            Err(e) => {
                let mut m = String::from_str("ids must be an array of strings: ");
                m.append(toml_error_text(&e).as_str());
                return Err(LayoutError::NotStringArray(m));
            },
        };
        self.set_layout(target.to_owned(), ids);
        Ok(())
    }
}

proof fn lemma_layout_remove(
    before: Seq<(String, Vec<String>)>,
    after: Seq<(String, Vec<String>)>,
    target: Seq<char>,
    t: Seq<char>,
)
    requires
        t != target,
        after == before || exists|i: int| 0 <= i < before.len() && before[i].0@ == target && after
            == before.remove(i),
    ensures
        layout_of(after, t) == layout_of(before, t),
    decreases before.len(),
{
    if after != before {
        let i = choose|i: int| 0 <= i < before.len() && before[i].0@ == target && after == before.remove(i);
        if i > 0 {
            assert(after[0] == before[0]);
            assert(after.drop_first() =~= before.drop_first().remove(i - 1));
            lemma_layout_remove(before.drop_first(), after.drop_first(), target, t);
        } else {
            assert(after =~= before.drop_first());
        }
    }
}

} // verus!
