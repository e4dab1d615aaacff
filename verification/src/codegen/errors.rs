use vstd::prelude::*;
use std::rc::Rc;

use crate::parser::Node;

verus! {

/// An error of code generation, with the node it concerns when there is one.
#[derive(Debug, PartialEq)]
pub struct CodegenError {
    pub token: Option<ErrorToken>,
    pub source: ErrorRepr,
}

/// The node an error concerns, with a position in it.
#[derive(Debug, PartialEq)]
pub struct ErrorToken {
    pub token: Rc<Node>,
    pub position: usize,
}

impl CodegenError {
    /// An error at `node`.
    pub fn new(node: Rc<Node>, source: ErrorRepr) -> (e: CodegenError)
        ensures
            e.token == Some(ErrorToken { token: node, position: 0 }),
            e.source == source,
    {
        Self { token: Some(ErrorToken { token: node, position: 0 }), source }
    }

    /// The result failing with an error at `node`.
    pub fn err<T>(node: Rc<Node>, source: ErrorRepr) -> (r: Result<T, CodegenError>)
        ensures
            r matches Err(e) && e.token == Some(ErrorToken { token: node, position: 0 }) && e.source == source,
    {
        Err(Self::new(node, source))
    }

    /// The result failing with an error at no node.
    pub fn err_headless<T>(source: ErrorRepr) -> (r: Result<T, CodegenError>)
        ensures
            r matches Err(e) && e.token is None && e.source == source,
    {
        Err(Self::new_headless(source))
    }

    /// `result`, with its error replaced by an error at `node`.
    pub fn map<T, U>(result: Result<T, U>, node: Rc<Node>, source: ErrorRepr) -> (r: Result<T, CodegenError>)
        ensures
            match result {
                Ok(v) => r == Ok::<T, CodegenError>(v),
                Err(_) => r matches Err(e) && e.token == Some(ErrorToken { token: node, position: 0 }) && e.source == source,
            },
    {
        match result {
            Ok(v) => Ok(v),
            Err(_) => Err(Self::new(node, source)),
        }
    }

    /// `result`, with its error replaced by an error at no node.
    pub fn map_headless<T, U>(result: Result<T, U>, source: ErrorRepr) -> (r: Result<T, CodegenError>)
        ensures
            match result {
                Ok(v) => r == Ok::<T, CodegenError>(v),
                Err(_) => r matches Err(e) && e.token is None && e.source == source,
            },
    {
        match result {
            Ok(v) => Ok(v),
            Err(_) => Err(Self::new_headless(source)),
        }
    }

    /// An error at `position` in `node`.
    pub fn new_position(node: Rc<Node>, position: usize, source: ErrorRepr) -> (e: CodegenError)
        ensures
            e.token == Some(ErrorToken { token: node, position }),
            e.source == source,
    {
        Self { token: Some(ErrorToken { token: node, position }), source }
    }

    /// An error at no node.
    pub fn new_headless(source: ErrorRepr) -> (e: CodegenError)
        ensures
            e.token is None,
            e.source == source,
    {
        Self { token: None, source }
    }
}

/// What went wrong in code generation.
#[derive(Debug, Clone, Copy, PartialEq, Eq, Structural)]
pub enum ErrorRepr {
    Generic,
    ExpectedBlock,
    ExpectedScannableBlock,
    ExpectedFunctionIdentifier,
    ExpectedStructIdentifier,
    ExpectedAccessableIdentifier,
    ExpectedStructFieldIdentifier,
    BadBorrow,
    BadMutBorrow,
    UnstructuredStructCode,
    ExpectedFunctionParamDeclaration,
    ExpectedFunctionCallParameters,
    ExpectedFunctionParamIdent,
    ExpectedTypeIdent,
    ExpectedDefinitionIdent,
    TypeIdentNotRecognized,
    DefinitionIdentNotRecognized,
    DomainIdentNotRecognized,
    ExpectedContext,
    ExpectedField,
    ExpectedStruct,
    ExpectedFunction,
    ExpectedVariableIdentifier,
    ExpectedVariable,
    InvalidVariableName,
    UnexpectedExpressionToken,
    InvalidExpressionTypeConversion,
    InvalidVariableType,
    FunctionNestedInFunction,
    StructNestedInFunction,
    DomainNestedInFunction,
    ExpectedDomainIdentifier,
    DomainNestedInStruct,
    RegisterDeallocationError,
    InvalidAssignmentToken,
    DeclaringExistingVariable,
    UnexpectedReturnValue,
    InvalidReturnValueType,
    ExpectedFunctionReturnValue,
    UnexpectedFunctionParameter,
    ExpectedFunctionParameter,
    UnexpectedFunctionParameterType,
    UnexpectedValueTypeIdent,
    UnexpectedStructAccessIdent,
    ConstructFieldsMissing,
    ExpectedFieldAssignment,
    InvalidStructField,
    UnexpectedStructFieldType,
    ExpectedAccessableType,
    ExpectedAccessableNode,
    FieldAlreadyDefined,
    ExpectedType,
    UnexpectedContextType,
    ExpectedDomain,
    ExpectedIdentifier,
    CantImplicitlyCast,
    SelfInObjectiveCode,
    UnexpectedPrimaryToken,
    NoTraceCantAssign,
    InvalidStructDefinition,
    InvalidLocationAccess,
    InvalidVectorAccess,
    ExpectedListType,
}

/// The message of each kind of error.
pub open spec fn repr_message(e: ErrorRepr) -> Seq<char> {
    match e {
        ErrorRepr::Generic => "Generic Error"@,
        ErrorRepr::ExpectedBlock => "Expected a code block."@,
        ErrorRepr::ExpectedScannableBlock => "Expected a scannable code block."@,
        ErrorRepr::ExpectedFunctionIdentifier => "Expected a function identifier string."@,
        ErrorRepr::ExpectedStructIdentifier => "Expected a struct identifier string."@,
        ErrorRepr::ExpectedAccessableIdentifier => "Expected an accessable identifier string."@,
        ErrorRepr::ExpectedStructFieldIdentifier => "Expected a struct field identifier string."@,
        ErrorRepr::BadBorrow => "Borrowing error. (Yeah you know the system in rust thats supposed to fix errors? it errored)"@,
        ErrorRepr::BadMutBorrow => "Mutable borrowing error. (Yeah you know the system in rust thats supposed to fix errors? it errored)"@,
        ErrorRepr::UnstructuredStructCode => "Unexpected unstructured code in struct."@,
        ErrorRepr::ExpectedFunctionParamDeclaration => "Expected proper function parameter declarations."@,
        ErrorRepr::ExpectedFunctionCallParameters => "Expected proper function call parameters."@,
        ErrorRepr::ExpectedFunctionParamIdent => "Expected function parameter identifier."@,
        ErrorRepr::ExpectedTypeIdent => "Expected type identifier."@,
        ErrorRepr::ExpectedDefinitionIdent => "Expected definition identifier."@,
        ErrorRepr::TypeIdentNotRecognized => "Type identifier not recognized."@,
        ErrorRepr::DefinitionIdentNotRecognized => "Definition identifier not recognized."@,
        ErrorRepr::DomainIdentNotRecognized => "Domain identifier not recognized."@,
        ErrorRepr::ExpectedContext => "Expected a context."@,
        ErrorRepr::ExpectedField => "Expected a field."@,
        ErrorRepr::ExpectedStruct => "Expected a struct."@,
        ErrorRepr::ExpectedFunction => "Expected a function."@,
        ErrorRepr::ExpectedVariableIdentifier => "Expected a variable identifier."@,
        ErrorRepr::ExpectedVariable => "Expected a variable."@,
        ErrorRepr::InvalidVariableName => "Invalid variable name."@,
        ErrorRepr::UnexpectedExpressionToken => "Unexpected expression token."@,
        ErrorRepr::InvalidExpressionTypeConversion => "Invalid expression type conversion."@,
        ErrorRepr::InvalidVariableType => "Invalid variable type."@,
        ErrorRepr::FunctionNestedInFunction => "Functions cannot nest inside functions."@,
        ErrorRepr::StructNestedInFunction => "Structs cannot nest inside functions."@,
        ErrorRepr::DomainNestedInFunction => "Domains cannot nest inside functions."@,
        ErrorRepr::ExpectedDomainIdentifier => "Expected a domain identifier string."@,
        ErrorRepr::DomainNestedInStruct => "Domains cannot nest inside structs."@,
        ErrorRepr::RegisterDeallocationError => "A register deallocation error has occured. This is most likely the result of a mutated ownership variable."@,
        ErrorRepr::InvalidAssignmentToken => "Invalid assignment token."@,
        ErrorRepr::DeclaringExistingVariable => "Unexpectedly declaring an existing variable."@,
        ErrorRepr::UnexpectedReturnValue => "Unexpected return value; the function does not return a value."@,
        ErrorRepr::InvalidReturnValueType => "Invalid return value type."@,
        ErrorRepr::ExpectedFunctionReturnValue => "Expected the function to return a value."@,
        ErrorRepr::UnexpectedFunctionParameter => "Unexpected function parameter."@,
        ErrorRepr::ExpectedFunctionParameter => "Expected a function parameter."@,
        ErrorRepr::UnexpectedFunctionParameterType => "Unexpected function parameter type."@,
        ErrorRepr::UnexpectedValueTypeIdent => "Value type is unexpectedly an unparsed identifier."@,
        ErrorRepr::UnexpectedStructAccessIdent => "Unexpected struct access identifier."@,
        ErrorRepr::ConstructFieldsMissing => "Incomplete struct construct, field(s) are missing."@,
        ErrorRepr::ExpectedFieldAssignment => "Expected a field assignment."@,
        ErrorRepr::InvalidStructField => "Invalid struct field."@,
        ErrorRepr::UnexpectedStructFieldType => "Unexpected struct field type."@,
        ErrorRepr::ExpectedAccessableType => "Expected an accessable type (such as a struct)."@,
        ErrorRepr::ExpectedAccessableNode => "Expected an accessable node (such as a domain)."@,
        ErrorRepr::FieldAlreadyDefined => "A field of this name is already defined."@,
        ErrorRepr::ExpectedType => "Expected a type."@,
        ErrorRepr::UnexpectedContextType => "Unexpected context type."@,
        ErrorRepr::ExpectedDomain => "Expected a domain."@,
        ErrorRepr::ExpectedIdentifier => "Expected an identifier."@,
        ErrorRepr::CantImplicitlyCast => "The value cannot be implicitly cast to the expected type."@,
        ErrorRepr::SelfInObjectiveCode => "`self` is only available inside the functions of a struct."@,
        ErrorRepr::UnexpectedPrimaryToken => "Unexpected primary token."@,
        ErrorRepr::NoTraceCantAssign => "The value cannot be assigned to."@,
        ErrorRepr::InvalidStructDefinition => "Invalid struct definition."@,
        ErrorRepr::InvalidLocationAccess => "Invalid location access; expected x, y, z, pitch or yaw."@,
        ErrorRepr::InvalidVectorAccess => "Invalid vector access; expected x, y or z."@,
        ErrorRepr::ExpectedListType => "Expected a list type."@,
    }
}

impl ErrorRepr {
    /// The message of the error.
    pub fn message(&self) -> (s: &'static str)
        ensures
            s@ == repr_message(*self),
    {
        match self {
            ErrorRepr::Generic => "Generic Error",
            ErrorRepr::ExpectedBlock => "Expected a code block.",
            ErrorRepr::ExpectedScannableBlock => "Expected a scannable code block.",
            ErrorRepr::ExpectedFunctionIdentifier => "Expected a function identifier string.",
            ErrorRepr::ExpectedStructIdentifier => "Expected a struct identifier string.",
            ErrorRepr::ExpectedAccessableIdentifier => "Expected an accessable identifier string.",
            ErrorRepr::ExpectedStructFieldIdentifier => "Expected a struct field identifier string.",
            ErrorRepr::BadBorrow => "Borrowing error. (Yeah you know the system in rust thats supposed to fix errors? it errored)",
            ErrorRepr::BadMutBorrow => "Mutable borrowing error. (Yeah you know the system in rust thats supposed to fix errors? it errored)",
            ErrorRepr::UnstructuredStructCode => "Unexpected unstructured code in struct.",
            ErrorRepr::ExpectedFunctionParamDeclaration => "Expected proper function parameter declarations.",
            ErrorRepr::ExpectedFunctionCallParameters => "Expected proper function call parameters.",
            ErrorRepr::ExpectedFunctionParamIdent => "Expected function parameter identifier.",
            ErrorRepr::ExpectedTypeIdent => "Expected type identifier.",
            ErrorRepr::ExpectedDefinitionIdent => "Expected definition identifier.",
            ErrorRepr::TypeIdentNotRecognized => "Type identifier not recognized.",
            ErrorRepr::DefinitionIdentNotRecognized => "Definition identifier not recognized.",
            ErrorRepr::DomainIdentNotRecognized => "Domain identifier not recognized.",
            ErrorRepr::ExpectedContext => "Expected a context.",
            ErrorRepr::ExpectedField => "Expected a field.",
            ErrorRepr::ExpectedStruct => "Expected a struct.",
            ErrorRepr::ExpectedFunction => "Expected a function.",
            ErrorRepr::ExpectedVariableIdentifier => "Expected a variable identifier.",
            ErrorRepr::ExpectedVariable => "Expected a variable.",
            ErrorRepr::InvalidVariableName => "Invalid variable name.",
            ErrorRepr::UnexpectedExpressionToken => "Unexpected expression token.",
            ErrorRepr::InvalidExpressionTypeConversion => "Invalid expression type conversion.",
            ErrorRepr::InvalidVariableType => "Invalid variable type.",
            ErrorRepr::FunctionNestedInFunction => "Functions cannot nest inside functions.",
            ErrorRepr::StructNestedInFunction => "Structs cannot nest inside functions.",
            ErrorRepr::DomainNestedInFunction => "Domains cannot nest inside functions.",
            ErrorRepr::ExpectedDomainIdentifier => "Expected a domain identifier string.",
            ErrorRepr::DomainNestedInStruct => "Domains cannot nest inside structs.",
            ErrorRepr::RegisterDeallocationError => "A register deallocation error has occured. This is most likely the result of a mutated ownership variable.",
            ErrorRepr::InvalidAssignmentToken => "Invalid assignment token.",
            ErrorRepr::DeclaringExistingVariable => "Unexpectedly declaring an existing variable.",
            ErrorRepr::UnexpectedReturnValue => "Unexpected return value; the function does not return a value.",
            ErrorRepr::InvalidReturnValueType => "Invalid return value type.",
            ErrorRepr::ExpectedFunctionReturnValue => "Expected the function to return a value.",
            ErrorRepr::UnexpectedFunctionParameter => "Unexpected function parameter.",
            ErrorRepr::ExpectedFunctionParameter => "Expected a function parameter.",
            ErrorRepr::UnexpectedFunctionParameterType => "Unexpected function parameter type.",
            ErrorRepr::UnexpectedValueTypeIdent => "Value type is unexpectedly an unparsed identifier.",
            ErrorRepr::UnexpectedStructAccessIdent => "Unexpected struct access identifier.",
            ErrorRepr::ConstructFieldsMissing => "Incomplete struct construct, field(s) are missing.",
            ErrorRepr::ExpectedFieldAssignment => "Expected a field assignment.",
            ErrorRepr::InvalidStructField => "Invalid struct field.",
            ErrorRepr::UnexpectedStructFieldType => "Unexpected struct field type.",
            ErrorRepr::ExpectedAccessableType => "Expected an accessable type (such as a struct).",
            ErrorRepr::ExpectedAccessableNode => "Expected an accessable node (such as a domain).",
            ErrorRepr::FieldAlreadyDefined => "A field of this name is already defined.",
            ErrorRepr::ExpectedType => "Expected a type.",
            ErrorRepr::UnexpectedContextType => "Unexpected context type.",
            ErrorRepr::ExpectedDomain => "Expected a domain.",
            ErrorRepr::ExpectedIdentifier => "Expected an identifier.",
            ErrorRepr::CantImplicitlyCast => "The value cannot be implicitly cast to the expected type.",
            ErrorRepr::SelfInObjectiveCode => "`self` is only available inside the functions of a struct.",
            ErrorRepr::UnexpectedPrimaryToken => "Unexpected primary token.",
            ErrorRepr::NoTraceCantAssign => "The value cannot be assigned to.",
            ErrorRepr::InvalidStructDefinition => "Invalid struct definition.",
            ErrorRepr::InvalidLocationAccess => "Invalid location access; expected x, y, z, pitch or yaw.",
            ErrorRepr::InvalidVectorAccess => "Invalid vector access; expected x, y or z.",
            ErrorRepr::ExpectedListType => "Expected a list type.",
        }
    }
}

} // verus!
