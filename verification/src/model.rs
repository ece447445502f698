use vstd::prelude::*;

verus! {

/// What a variant group stands for in the function template.
#[derive(Clone, Copy, Debug, PartialEq, Eq, Structural)]
pub enum VariantKind {
    Expr,
    Type,
    Block,
}

/// The delimiter of a `variant!` placeholder: `variant!(..)`, `variant![..]` or `variant!{..}`.
#[derive(Clone, Copy, Debug, PartialEq, Eq, Structural)]
pub enum Delimiter {
    Paren,
    Bracket,
    Brace,
}

/// The kind a placeholder's delimiter asks for: braces a block, brackets an
/// expression, parentheses a type.
pub open spec fn spec_kind_of_delimiter(d: Delimiter) -> VariantKind {
    match d {
        Delimiter::Brace => VariantKind::Block,
        Delimiter::Bracket => VariantKind::Expr,
        Delimiter::Paren => VariantKind::Type,
    }
}

pub fn kind_of_delimiter(d: Delimiter) -> (k: VariantKind)
    ensures
        k == spec_kind_of_delimiter(d),
{
    match d {
        Delimiter::Brace => VariantKind::Block,
        Delimiter::Bracket => VariantKind::Expr,
        Delimiter::Paren => VariantKind::Type,
    }
}


/// Where a placeholder stands in the function template. Only expression, type and
/// statement placeholders are replaced; the others are only read for their kind.
#[derive(Clone, Copy, Debug, PartialEq, Eq, Structural)]
pub enum Position {
    Expr,
    Type,
    Stmt,
    Other,
}

/// One `variant!` placeholder of the function template, in the order the template
/// is walked. `name` is the group it names, or `None` when its tokens are not
/// exactly one identifier.
#[derive(Debug)]
pub struct Placeholder {
    pub name: Option<String>,
    pub delimiter: Delimiter,
    pub position: Position,
}

/// What a placeholder error says.
#[derive(Clone, Copy, Debug, PartialEq, Eq, Structural)]
pub enum PlaceholderErrorKind {
    /// The placeholder does not hold exactly one identifier (found while collecting groups).
    NameTokenMismatch,
    /// The group was already used with a placeholder of another kind.
    UsedWithMultipleKinds,
    /// The placeholder does not hold exactly one identifier (found while replacing);
    /// the error is the identifier parser's own.
    NameParse,
    UnknownExprGroup,
    TypeVariantInExpr,
    BlockKindMismatch,
    UnknownTypeGroup,
    NonTypeInType,
    UnknownStmtGroup,
    TypeVariantInStmt,
}

/// An error attached to the placeholder with the given index.
#[derive(Clone, Copy, Debug, PartialEq, Eq, Structural)]
pub struct PlaceholderError {
    pub placeholder: usize,
    pub kind: PlaceholderErrorKind,
}

/// An error in the variant sections; indices are those of the sections (and of
/// the variant within its section) in declaration order.
#[derive(Clone, Copy, Debug, PartialEq, Eq, Structural)]
pub enum SectionError {
    DuplicateSection { section: usize },
    EmptySection { section: usize },
    UnmappedSection { section: usize },
    DuplicateVariant { section: usize, variant: usize },
}

/// Everything that can stop the composition.
#[derive(Clone, Debug, PartialEq, Eq)]
pub enum MozartError {
    /// Errors found while collecting the groups of the placeholders, combined in order.
    Mapping(Vec<PlaceholderError>),
    Section(SectionError),
    GenericFunction,
    AsyncFunction,
    /// Errors found while replacing the placeholders of the first generated function,
    /// combined in order.
    Replace(Vec<PlaceholderError>),
    Method,
}

pub ghost enum MozartErrorView {
    Mapping(Seq<PlaceholderError>),
    Section(SectionError),
    GenericFunction,
    AsyncFunction,
    Replace(Seq<PlaceholderError>),
    Method,
}

impl View for MozartError {
    type V = MozartErrorView;

    open spec fn view(&self) -> MozartErrorView {
        match self {
            MozartError::Mapping(e) => MozartErrorView::Mapping(e@),
            MozartError::Section(e) => MozartErrorView::Section(*e),
            MozartError::GenericFunction => MozartErrorView::GenericFunction,
            MozartError::AsyncFunction => MozartErrorView::AsyncFunction,
            MozartError::Replace(e) => MozartErrorView::Replace(e@),
            MozartError::Method => MozartErrorView::Method,
        }
    }
}

/// The parts of the template function's signature that the composition reads.
#[derive(Debug)]
pub struct FnSignature {
    /// The function's name, without a raw-identifier prefix.
    pub name: String,
    pub has_generics: bool,
    pub is_async: bool,
    pub has_receiver: bool,
}

/// Errors in finding the template function among the macro's input.
#[derive(Clone, Copy, Debug, PartialEq, Eq, Structural)]
pub enum InputError {
    ExpectedFunctionDeclaration,
    UnexpectedTokensAfterFunction,
}

pub open spec fn spec_input_error_message(e: InputError) -> &'static str {
    match e {
        InputError::ExpectedFunctionDeclaration => "expected a function declaration, perhaps you forgot ?",
        InputError::UnexpectedTokensAfterFunction => "Unexpected trailing tokens after function declaration. Try a diary instead",
    }
}

impl InputError {
    pub fn message(&self) -> (r: &'static str)
        ensures
            r == spec_input_error_message(*self),
    {
        match self {
            InputError::ExpectedFunctionDeclaration => "expected a function declaration, perhaps you forgot ?",
            InputError::UnexpectedTokensAfterFunction => "Unexpected trailing tokens after function declaration. Try a diary instead",
        }
    }
}

pub open spec fn spec_section_error_message(e: SectionError) -> &'static str {
    match e {
        SectionError::DuplicateSection { .. } => "Variant section was declared before",
        SectionError::EmptySection { .. } => "Variant section is empty",
        SectionError::UnmappedSection { .. } => "Variant section was not referenced by any variant! placeholder in the function",
        SectionError::DuplicateVariant { .. } => "Variant was declared before",
    }
}

impl SectionError {
    pub fn message(&self) -> (r: &'static str)
        ensures
            r == spec_section_error_message(*self),
    {
        match self {
            SectionError::DuplicateSection { .. } => "Variant section was declared before",
            SectionError::EmptySection { .. } => "Variant section is empty",
            SectionError::UnmappedSection { .. } => "Variant section was not referenced by any variant! placeholder in the function",
            SectionError::DuplicateVariant { .. } => "Variant was declared before",
        }
    }
}

/// The message of a placeholder error; none for [`PlaceholderErrorKind::NameParse`],
/// whose message is the identifier parser's own.
pub open spec fn spec_placeholder_error_message(k: PlaceholderErrorKind) -> Option<&'static str> {
    match k {
        PlaceholderErrorKind::NameTokenMismatch => Some("variant! placeholder must contain exactly one identifier"),
        PlaceholderErrorKind::UsedWithMultipleKinds => Some("Variant group used with multiple placeholder kinds"),
        PlaceholderErrorKind::NameParse => None,
        PlaceholderErrorKind::UnknownExprGroup => Some("Unknown variant group in expression position"),
        PlaceholderErrorKind::TypeVariantInExpr => Some("variant!(name) with parentheses denotes a type group and cannot be used in expression position; use variant![name] instead"),
        PlaceholderErrorKind::BlockKindMismatch => Some("variant! block placeholder resolved to a non-block variant"),
        PlaceholderErrorKind::UnknownTypeGroup => Some("Unknown variant group in type position"),
        PlaceholderErrorKind::NonTypeInType => Some("Only variant!(name) type placeholders can be used in type position"),
        PlaceholderErrorKind::UnknownStmtGroup => Some("Unknown variant group in statement position"),
        PlaceholderErrorKind::TypeVariantInStmt => Some("variant!(name) type placeholder cannot be used in statement position"),
    }
}

impl PlaceholderErrorKind {
    pub fn message(&self) -> (r: Option<&'static str>)
        ensures
            r == spec_placeholder_error_message(*self),
    {
        match self {
            PlaceholderErrorKind::NameTokenMismatch => Some("variant! placeholder must contain exactly one identifier"),
            PlaceholderErrorKind::UsedWithMultipleKinds => Some("Variant group used with multiple placeholder kinds"),
            PlaceholderErrorKind::NameParse => None,
            PlaceholderErrorKind::UnknownExprGroup => Some("Unknown variant group in expression position"),
            PlaceholderErrorKind::TypeVariantInExpr => Some("variant!(name) with parentheses denotes a type group and cannot be used in expression position; use variant![name] instead"),
            PlaceholderErrorKind::BlockKindMismatch => Some("variant! block placeholder resolved to a non-block variant"),
            PlaceholderErrorKind::UnknownTypeGroup => Some("Unknown variant group in type position"),
            PlaceholderErrorKind::NonTypeInType => Some("Only variant!(name) type placeholders can be used in type position"),
            PlaceholderErrorKind::UnknownStmtGroup => Some("Unknown variant group in statement position"),
            PlaceholderErrorKind::TypeVariantInStmt => Some("variant!(name) type placeholder cannot be used in statement position"),
        }
    }
}

/// The message of an error of the whole template; none for the errors that carry
/// their own messages.
pub open spec fn spec_template_error_message(e: MozartErrorView) -> Option<&'static str> {
    match e {
        MozartErrorView::GenericFunction => Some("mozart! does not support generic functions (including lifetime parameters)"),
        MozartErrorView::AsyncFunction => Some("mozart! does not support `async fn`"),
        MozartErrorView::Method => Some("methods are not supported"),
        _ => None,
    }
}

impl MozartError {
    pub fn message(&self) -> (r: Option<&'static str>)
        ensures
            r == spec_template_error_message(self@),
    {
        match self {
            MozartError::GenericFunction => Some("mozart! does not support generic functions (including lifetime parameters)"),
            MozartError::AsyncFunction => Some("mozart! does not support `async fn`"),
            MozartError::Method => Some("methods are not supported"),
            _ => None,
        }
    }
}

} // verus!
