//! Declaring a type as an effect of some class: which items are accepted and
//! what the declaration adds to them.

use vstd::prelude::*;

use crate::interop::syntax;

verus! {

/// The class that a type is declared as.
#[derive(Clone, Copy, Debug, PartialEq, Eq, Structural)]
pub enum Class {
    /// Pure local.
    A,
    /// Idempotent remote.
    B,
    /// Irreversible remote.
    C,
}

/// What kind of item is declared.
#[derive(Clone, Copy, Debug, PartialEq, Eq, Structural)]
pub enum ItemShape {
    /// A struct.
    Struct,
    /// An enum.
    Enum,
    /// Anything else.
    Other,
}

/// The part of a declaration that a refusal points at.
#[derive(Clone, Copy, Debug, PartialEq, Eq, Structural)]
pub enum RefusedPart {
    /// The arguments of the attribute.
    Args,
    /// The source text, which is no item.
    Source,
    /// The item.
    Item,
    /// The generics of the item.
    Generics,
}

/// What is read of an item that is declared.
#[derive(Debug)]
pub struct Declaration {
    /// The kind of the item.
    pub shape: ItemShape,
    /// Its name; empty where it is neither a struct nor an enum.
    pub ident: String,
    /// The number of its generic parameters; none where it is neither.
    pub generics: usize,
}

impl Declaration {
    /// What the declaration holds.
    pub open spec fn view(&self) -> syntax::Declared {
        syntax::Declared {
            shape: self.shape,
            ident: self.ident@,
            generics: self.generics as nat,
        }
    }
}

/// Why a declaration is refused.
#[derive(Debug)]
pub struct Refusal {
    /// The part that is at fault.
    pub part: RefusedPart,
    /// The compile error.
    pub message: String,
}

/// What a declaration adds to an item: the seal for the type, and a constant
/// that marks its class.
#[derive(Debug)]
pub struct Expansion {
    /// The type that is sealed.
    pub sealed_type: String,
    /// The name of the constant.
    pub marker: String,
    /// The value of the constant.
    pub letter: &'static str,
}

impl Class {
    /// The letter of the class.
    pub open spec fn spec_letter(self) -> Seq<char> {
        match self {
            Class::A => "A"@,
            Class::B => "B"@,
            Class::C => "C"@,
        }
    }

    /// The name of the attribute for the class.
    pub open spec fn attribute(self) -> Seq<char> {
        match self {
            Class::A => "#[reel::class_a]"@,
            Class::B => "#[reel::class_b]"@,
            Class::C => "#[reel::class_c]"@,
        }
    }

    /// What the marker names of the class start with.
    pub open spec fn spec_const_prefix(self) -> Seq<char> {
        match self {
            Class::A => "__REEL_EFFECT_CLASS_A"@,
            Class::B => "__REEL_EFFECT_CLASS_B"@,
            Class::C => "__REEL_EFFECT_CLASS_C"@,
        }
    }

    /// The marker name for a type of the class.
    pub open spec fn spec_marker(self, ty: Seq<char>) -> Seq<char> {
        self.spec_const_prefix() + "__"@ + ty
    }

    /// The letter of the class.
    pub fn letter(self) -> (s: &'static str)
        ensures
            s@ == self.spec_letter(),
    {
        match self {
            Class::A => "A",
            Class::B => "B",
            Class::C => "C",
        }
    }

    /// What the marker names of the class start with.
    pub fn const_prefix(self) -> (s: &'static str)
        ensures
            s@ == self.spec_const_prefix(),
    {
        match self {
            Class::A => "__REEL_EFFECT_CLASS_A",
            Class::B => "__REEL_EFFECT_CLASS_B",
            Class::C => "__REEL_EFFECT_CLASS_C",
        }
    }

    /// The marker name for a type of the class.
    pub fn marker_ident_for(self, ty: &str) -> (s: String)
        ensures
            s@ == self.spec_marker(ty@),
    {
        String::from_str(self.const_prefix()).concat("__").concat(ty)
    }

    fn attribute_name(self) -> (s: &'static str)
        ensures
            s@ == self.attribute(),
    {
        match self {
            Class::A => "#[reel::class_a]",
            Class::B => "#[reel::class_b]",
            Class::C => "#[reel::class_c]",
        }
    }
}

/// Checks the arguments of the attribute, which has to have none.
pub fn check_args(class: Class, args_empty: bool) -> (r: Result<(), Refusal>)
    ensures
        r is Ok <==> args_empty,
        r matches Err(e) ==> e.part == RefusedPart::Args && e.message@ == class.attribute()
            + " does not accept attribute arguments (got: see invocation site)"@,
{
    if !args_empty {
        return Err(
            Refusal {
                part: RefusedPart::Args,
                message: String::from_str(class.attribute_name()).concat(
                    " does not accept attribute arguments (got: see invocation site)",
                ),
            },
        );
    }
    Ok(())
}

/// The refusal of an item that is not a struct or an enum, or that is generic.
pub open spec fn is_item_refusal(e: Refusal, class: Class, shape: ItemShape) -> bool {
    if shape == ItemShape::Other {
        &&& e.part == RefusedPart::Item
        &&& e.message@ == class.attribute() + " may only be applied to a struct or enum"@
    } else {
        &&& e.part == RefusedPart::Generics
        &&& e.message@ == class.attribute()
            + " does not currently support generic effect types (open question: ADR follow-up).  Hand-write the `impl ::reel_effects::__private::Sealed` + `impl ClassA/B/C` pair for now."@
    }
}

/// Plans what a declaration adds to an item. Only a struct or an enum without
/// generics can be declared.
pub fn expand(class: Class, shape: ItemShape, ident: &str, generic: bool) -> (r: Result<
    Expansion,
    Refusal,
>)
    ensures
        r is Ok <==> shape != ItemShape::Other && !generic,
        match r {
            Ok(x) => {
                &&& x.sealed_type@ == ident@
                &&& x.marker@ == class.spec_marker(ident@)
                &&& x.letter@ == class.spec_letter()
            },
            Err(e) => is_item_refusal(e, class, shape),
        },
{
    match shape {
        ItemShape::Struct | ItemShape::Enum => {},
        ItemShape::Other => {
            return Err(
                Refusal {
                    part: RefusedPart::Item,
                    message: String::from_str(class.attribute_name()).concat(
                        " may only be applied to a struct or enum",
                    ),
                },
            );
        },
    }
    if generic {
        return Err(
            Refusal {
                part: RefusedPart::Generics,
                message: String::from_str(class.attribute_name()).concat(
                    " does not currently support generic effect types (open question: ADR follow-up).  Hand-write the `impl ::reel_effects::__private::Sealed` + `impl ClassA/B/C` pair for now.",
                ),
            },
        );
    }
    Ok(
        Expansion {
            sealed_type: String::from_str(ident),
            marker: class.marker_ident_for(ident),
            letter: class.letter(),
        },
    )
}

/// Plans what the declaration of an item, given as source text, adds to it.
/// The attribute must have no arguments, and the text must be one item that
/// can be declared. The message of a text that is no item is left open.
pub fn expand_source(class: Class, args_empty: bool, item: &str) -> (r: Result<Expansion, Refusal>)
    ensures
        if !args_empty {
            r matches Err(e) && e.part == RefusedPart::Args && e.message@ == class.attribute()
                + " does not accept attribute arguments (got: see invocation site)"@
        } else {
            match syntax::syn_item(item@) {
                None => r matches Err(e) && e.part == RefusedPart::Source,
                Some(d) => if d.shape != ItemShape::Other && d.generics == 0 {
                    r matches Ok(x) && x.sealed_type@ == d.ident && x.marker@ == class.spec_marker(
                        d.ident,
                    ) && x.letter@ == class.spec_letter()
                } else {
                    r matches Err(e) && is_item_refusal(e, class, d.shape)
                },
            }
        },
{
    match check_args(class, args_empty) {
        Ok(()) => {},
        Err(e) => return Err(e),
    }
    match syntax::parse_item(item) {
        Ok(d) => expand(class, d.shape, d.ident.as_str(), d.generics > 0),
        Err(message) => Err(Refusal { part: RefusedPart::Source, message }),
    }
}

impl Expansion {
    /// The added items as source text: the seal and the marker.
    pub open spec fn source_text(&self) -> Seq<char> {
        "#[doc(hidden)] impl ::reel_effects::__private::Sealed for "@ + self.sealed_type@
            + " {} #[doc(hidden)] #[allow(non_upper_case_globals, reason = \"compiler-generated drift marker\")] const "@
            + self.marker@ + ": &str = \""@ + self.letter@ + "\";"@
    }

    /// Writes the added items as source text.
    pub fn source(&self) -> (s: String)
        ensures
            s@ == self.source_text(),
    {
        String::from_str("#[doc(hidden)] impl ::reel_effects::__private::Sealed for ").concat(
            self.sealed_type.as_str(),
        ).concat(
            " {} #[doc(hidden)] #[allow(non_upper_case_globals, reason = \"compiler-generated drift marker\")] const ",
        ).concat(self.marker.as_str()).concat(": &str = \"").concat(self.letter).concat("\";")
    }
}

/// Types of different classes never share a marker, and neither do two types
/// of one class with different names.
pub proof fn law_markers_differ(a: Class, x: Seq<char>, b: Class, y: Seq<char>)
    requires
        a.spec_marker(x) == b.spec_marker(y),
    ensures
        a == b,
        x == y,
{
    reveal_strlit("__REEL_EFFECT_CLASS_A");
    reveal_strlit("__REEL_EFFECT_CLASS_B");
    reveal_strlit("__REEL_EFFECT_CLASS_C");
    reveal_strlit("__");
    let m = a.spec_marker(x);
    let n = b.spec_marker(y);
    assert(m[20] == a.spec_const_prefix()[20]);
    assert(n[20] == b.spec_const_prefix()[20]);
    assert(a.spec_const_prefix().len() == 21 && b.spec_const_prefix().len() == 21);
    assert(x =~= m.subrange(23, m.len() as int));
    assert(y =~= n.subrange(23, n.len() as int));
}

/// The marker of a type is made of its class and its name, and its value is the
/// letter of the class.
pub proof fn law_marker_names_class_and_type(ty: Seq<char>)
    ensures
        Class::A.spec_marker(ty) == "__REEL_EFFECT_CLASS_A"@ + "__"@ + ty,
        Class::B.spec_marker(ty) == "__REEL_EFFECT_CLASS_B"@ + "__"@ + ty,
        Class::C.spec_marker(ty) == "__REEL_EFFECT_CLASS_C"@ + "__"@ + ty,
        Class::A.spec_letter() == "A"@,
        Class::B.spec_letter() == "B"@,
        Class::C.spec_letter() == "C"@,
        Class::A.attribute() == "#[reel::class_a]"@,
        Class::B.attribute() == "#[reel::class_b]"@,
        Class::C.attribute() == "#[reel::class_c]"@,
{
}

/// The refusal of an item says whether it is of the wrong shape or generic.
pub proof fn law_refusal_says_what_is_wrong(e: Refusal, class: Class, shape: ItemShape)
    requires
        is_item_refusal(e, class, shape),
    ensures
        e.part == RefusedPart::Item <==> shape == ItemShape::Other,
        e.part == RefusedPart::Generics <==> shape != ItemShape::Other,
{
}

} // verus!
