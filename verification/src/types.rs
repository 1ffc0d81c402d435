//! The model of PHP classes and their members that the rest of the library
//! reads: declared or virtual methods, properties and constants.

use vstd::prelude::*;

verus! {

/// Member visibility.
#[derive(Debug, Clone, Copy, PartialEq, Eq, Structural)]
pub enum Visibility {
    Public,
    Protected,
    Private,
}

/// What kind of class-like declaration a class is.
#[derive(Debug, Clone, Copy, PartialEq, Eq, Structural)]
pub enum ClassLikeKind {
    Class,
    Interface,
    Trait,
    Enum,
}

/// A parameter of a method.
#[derive(Debug, Clone)]
pub struct ParameterInfo {
    /// The name, with its leading `$`.
    pub name: String,
    /// A call must pass this parameter: it has no default and is not
    /// variadic.
    pub is_required: bool,
    pub type_hint: Option<String>,
    pub is_variadic: bool,
    pub is_reference: bool,
}

/// A method of a class.
#[derive(Debug, Clone)]
pub struct MethodInfo {
    pub name: String,
    pub parameters: Vec<ParameterInfo>,
    pub return_type: Option<String>,
    pub is_static: bool,
    pub visibility: Visibility,
    pub is_deprecated: bool,
}

/// A property of a class (its name without the `$`).
#[derive(Debug, Clone)]
pub struct PropertyInfo {
    pub name: String,
    pub type_hint: Option<String>,
    pub is_static: bool,
    pub visibility: Visibility,
    pub is_deprecated: bool,
}

/// A class constant (enum cases are stored as constants too).
#[derive(Debug, Clone)]
pub struct ConstantInfo {
    pub name: String,
    pub type_hint: Option<String>,
    pub is_deprecated: bool,
}

/// A class, interface, trait or enum with its members.
///
/// `start_offset` and `end_offset` delimit the body in the file that
/// declares it.  Anonymous classes carry names starting with
/// `__anonymous@`.
#[derive(Debug, Clone)]
pub struct ClassInfo {
    pub kind: ClassLikeKind,
    pub name: String,
    pub methods: Vec<MethodInfo>,
    pub properties: Vec<PropertyInfo>,
    pub constants: Vec<ConstantInfo>,
    pub start_offset: u32,
    pub end_offset: u32,
    pub parent_class: Option<String>,
    pub interfaces: Vec<String>,
    pub used_traits: Vec<String>,
    pub mixins: Vec<String>,
    pub is_final: bool,
    pub is_abstract: bool,
    pub is_deprecated: bool,
    pub class_docblock: Option<String>,
    pub file_namespace: Option<String>,
}

/// An optional string as an optional sequence of characters.
pub open spec fn opt_view(o: Option<String>) -> Option<Seq<char>> {
    match o {
        Some(s) => Some(s@),
        None => None,
    }
}

/// The mathematical value of a [`ParameterInfo`].
pub struct ParamView {
    pub name: Seq<char>,
    pub is_required: bool,
    pub type_hint: Option<Seq<char>>,
    pub is_variadic: bool,
    pub is_reference: bool,
}

impl View for ParameterInfo {
    type V = ParamView;

    open spec fn view(&self) -> ParamView {
        ParamView {
            name: self.name@,
            is_required: self.is_required,
            type_hint: opt_view(self.type_hint),
            is_variadic: self.is_variadic,
            is_reference: self.is_reference,
        }
    }
}

/// The mathematical value of a [`MethodInfo`].
pub struct MethodView {
    pub name: Seq<char>,
    pub parameters: Seq<ParamView>,
    pub return_type: Option<Seq<char>>,
    pub is_static: bool,
    pub visibility: Visibility,
    pub is_deprecated: bool,
}

impl View for MethodInfo {
    type V = MethodView;

    open spec fn view(&self) -> MethodView {
        MethodView {
            name: self.name@,
            parameters: self.parameters@.map_values(|p: ParameterInfo| p@),
            return_type: opt_view(self.return_type),
            is_static: self.is_static,
            visibility: self.visibility,
            is_deprecated: self.is_deprecated,
        }
    }
}

/// The mathematical value of a [`PropertyInfo`].
pub struct PropertyView {
    pub name: Seq<char>,
    pub type_hint: Option<Seq<char>>,
    pub is_static: bool,
    pub visibility: Visibility,
    pub is_deprecated: bool,
}

impl View for PropertyInfo {
    type V = PropertyView;

    open spec fn view(&self) -> PropertyView {
        PropertyView {
            name: self.name@,
            type_hint: opt_view(self.type_hint),
            is_static: self.is_static,
            visibility: self.visibility,
            is_deprecated: self.is_deprecated,
        }
    }
}

} // verus!
