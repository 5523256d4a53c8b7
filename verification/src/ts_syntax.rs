//! The TypeScript and JSX syntax the library reads, as plain values: what
//! oxc's parser gives for a module's top-level statements and the
//! expressions under them, and for the top-level elements of a JSX snippet.
//! The parse itself is oxc's; everything decided about the syntax is the
//! library's own, in the functions that read these values.

use vstd::prelude::*;
use oxc_allocator::Allocator;
use oxc_ast::ast::{
    Argument, ArrayExpression, ArrayExpressionElement, ArrowFunctionExpression, BinaryExpression,
    BinaryOperator, BindingPatternKind, CallExpression, Declaration, ExportDefaultDeclaration,
    ExportDefaultDeclarationKind, ExportNamedDeclaration, Expression, FormalParameter, Function,
    ImportDeclaration, ImportDeclarationSpecifier, JSXAttributeItem, JSXAttributeName, JSXAttributeValue,
    JSXChild, JSXElement, JSXElementName, JSXExpression, JSXExpressionContainer, JSXMemberExpression,
    JSXMemberExpressionObject, ObjectExpression, ObjectPropertyKind, PropertyKey, Statement,
    TSInterfaceDeclaration, TSInterfaceHeritage, TSSignature, TemplateLiteral, VariableDeclaration,
    VariableDeclarator,
};
use oxc_parser::Parser;
use oxc_span::{GetSpan, SourceType};

verus! {

#[verifier::external_type_specification]
#[verifier::external_body]
pub struct ExExpression<'a>(Expression<'a>);

#[verifier::external_type_specification]
#[verifier::external_body]
pub struct ExStatement<'a>(Statement<'a>);

#[verifier::external_type_specification]
#[verifier::external_body]
pub struct ExPropertyKey<'a>(PropertyKey<'a>);

#[verifier::external_type_specification]
#[verifier::external_body]
pub struct ExVariableDeclaration<'a>(VariableDeclaration<'a>);

#[verifier::external_type_specification]
#[verifier::external_body]
pub struct ExVariableDeclarator<'a>(VariableDeclarator<'a>);

#[verifier::external_type_specification]
#[verifier::external_body]
pub struct ExFunction<'a>(Function<'a>);

#[verifier::external_type_specification]
#[verifier::external_body]
pub struct ExFormalParameter<'a>(FormalParameter<'a>);

#[verifier::external_type_specification]
#[verifier::external_body]
pub struct ExTSInterfaceDeclaration<'a>(TSInterfaceDeclaration<'a>);

#[verifier::external_type_specification]
#[verifier::external_body]
pub struct ExTSSignature<'a>(TSSignature<'a>);

#[verifier::external_type_specification]
#[verifier::external_body]
pub struct ExTSInterfaceHeritage<'a>(TSInterfaceHeritage<'a>);

#[verifier::external_type_specification]
#[verifier::external_body]
pub struct ExImportDeclaration<'a>(ImportDeclaration<'a>);

#[verifier::external_type_specification]
#[verifier::external_body]
pub struct ExImportDeclarationSpecifier<'a>(ImportDeclarationSpecifier<'a>);

#[verifier::external_type_specification]
#[verifier::external_body]
pub struct ExExportNamedDeclaration<'a>(ExportNamedDeclaration<'a>);

#[verifier::external_type_specification]
#[verifier::external_body]
pub struct ExExportDefaultDeclaration<'a>(ExportDefaultDeclaration<'a>);

#[verifier::external_type_specification]
#[verifier::external_body]
pub struct ExTemplateLiteral<'a>(TemplateLiteral<'a>);

#[verifier::external_type_specification]
#[verifier::external_body]
pub struct ExBinaryExpression<'a>(BinaryExpression<'a>);

#[verifier::external_type_specification]
#[verifier::external_body]
pub struct ExObjectExpression<'a>(ObjectExpression<'a>);

#[verifier::external_type_specification]
#[verifier::external_body]
pub struct ExObjectPropertyKind<'a>(ObjectPropertyKind<'a>);

#[verifier::external_type_specification]
#[verifier::external_body]
pub struct ExArrayExpression<'a>(ArrayExpression<'a>);

#[verifier::external_type_specification]
#[verifier::external_body]
pub struct ExArrayExpressionElement<'a>(ArrayExpressionElement<'a>);

#[verifier::external_type_specification]
#[verifier::external_body]
pub struct ExArrowFunctionExpression<'a>(ArrowFunctionExpression<'a>);

#[verifier::external_type_specification]
#[verifier::external_body]
pub struct ExCallExpression<'a>(CallExpression<'a>);

#[verifier::external_type_specification]
#[verifier::external_body]
pub struct ExArgument<'a>(Argument<'a>);

#[verifier::external_type_specification]
#[verifier::external_body]
pub struct ExJSXElement<'a>(JSXElement<'a>);

#[verifier::external_type_specification]
#[verifier::external_body]
pub struct ExJSXElementName<'a>(JSXElementName<'a>);

#[verifier::external_type_specification]
#[verifier::external_body]
pub struct ExJSXMemberExpression<'a>(JSXMemberExpression<'a>);

#[verifier::external_type_specification]
#[verifier::external_body]
pub struct ExJSXAttributeItem<'a>(JSXAttributeItem<'a>);

#[verifier::external_type_specification]
#[verifier::external_body]
pub struct ExJSXAttributeName<'a>(JSXAttributeName<'a>);

#[verifier::external_type_specification]
#[verifier::external_body]
pub struct ExJSXAttributeValue<'a>(JSXAttributeValue<'a>);

#[verifier::external_type_specification]
#[verifier::external_body]
pub struct ExJSXExpressionContainer<'a>(JSXExpressionContainer<'a>);

#[verifier::external_type_specification]
#[verifier::external_body]
pub struct ExJSXChild<'a>(JSXChild<'a>);

/// An object or interface key.
#[derive(Debug, Clone)]
pub enum TsKey {
    /// A plain identifier key.
    Ident(String),
    /// A string-literal key.
    Str(String),
    /// A numeric-literal key, as the number displays.
    Number(String),
    /// A computed or other key.
    Other,
}

/// One property of an object literal.
#[derive(Debug)]
pub enum TsProperty {
    Prop(TsKey, TsExpr),
    Spread,
}

/// One element of an array literal.
#[derive(Debug)]
pub enum TsElement {
    Expr(TsExpr),
    Spread,
    Hole,
}

/// One statement of an arrow function's body.
#[derive(Debug)]
pub enum TsArrowStatement {
    Expr(TsExpr),
    Return(Option<TsExpr>),
    Other,
}

/// One call argument.
#[derive(Debug, Clone)]
pub enum TsArg {
    Str(String),
    Other,
}

/// An expression.
#[derive(Debug)]
pub enum TsExpr {
    /// A string literal's value.
    Str(String),
    /// A template literal: the raw text of its quasis and its expressions.
    Template(Vec<String>, Vec<TsExpr>),
    /// `a + b`.
    Add(Box<TsExpr>, Box<TsExpr>),
    /// An expression under `as`, `satisfies` or parentheses.
    Wrapped(Box<TsExpr>),
    /// An expression under a `<T>` type assertion.
    Asserted(Box<TsExpr>),
    Object(Vec<TsProperty>),
    Array(Vec<TsElement>),
    /// `test ? a : b`, as its two arms.
    Conditional(Box<TsExpr>, Box<TsExpr>),
    /// An arrow function, as its body's statements.
    Arrow(Vec<TsArrowStatement>),
    /// A function expression.
    Function,
    /// `object.name`, a static member access.
    Member(Box<TsExpr>, String),
    /// A call, as its callee and arguments.
    Call(Box<TsExpr>, Vec<TsArg>),
    Other,
}

/// A variable declarator: its name when it binds one identifier, and its
/// initializer.
#[derive(Debug)]
pub struct TsDeclarator {
    pub name: Option<String>,
    pub init: Option<TsExpr>,
}

/// One property signature of an interface.
#[derive(Debug, Clone)]
pub struct TsPropSig {
    pub key: TsKey,
    /// The source text of its type annotation.
    pub type_text: Option<String>,
    pub optional: bool,
}

/// An interface declaration: its name, its members (property signatures;
/// `None` for any other member) and the names it extends (`None` for a
/// heritage that is not a plain identifier).
#[derive(Debug, Clone)]
pub struct TsInterface {
    pub name: String,
    pub members: Vec<Option<TsPropSig>>,
    pub extends: Vec<Option<String>>,
}

/// How a declaration is exported.
#[derive(Debug, Clone, Copy, PartialEq, Eq, Structural)]
pub enum TsExport {
    Not,
    Named,
    Default,
}

/// A top-level statement.
#[derive(Debug)]
pub enum TsStatement {
    /// A variable declaration, and whether it is exported.
    Variables(bool, Vec<TsDeclarator>),
    /// A function declaration: how it is exported, its name, and for each
    /// parameter the keys of its object pattern (`None` for another
    /// parameter).
    Function(TsExport, Option<String>, Vec<Option<Vec<TsKey>>>),
    /// An interface declaration, and whether it is exported.
    Interface(bool, TsInterface),
    /// An import: its module specifier and, for each specifier, the local
    /// name of a named import (`None` for a default or namespace import).
    Import(String, Vec<Option<String>>),
    Other,
}

/// A parsed module: its top-level statements, and whether it parsed
/// without errors.
#[derive(Debug)]
pub struct TsModule {
    pub statements: Vec<TsStatement>,
    pub clean: bool,
}

/// What oxc's parser gives for `source` (read as TSX when `tsx`, else as
/// TypeScript); `None` when the parser panicked.
pub uninterp spec fn parsed_module(source: Seq<char>, tsx: bool) -> Option<TsModule>;

#[verifier::external_body]
fn key_of(key: &PropertyKey<'_>) -> TsKey {
    match key {
        PropertyKey::StaticIdentifier(id) => TsKey::Ident(id.name.to_string()),
        PropertyKey::StringLiteral(s) => TsKey::Str(s.value.to_string()),
        PropertyKey::NumericLiteral(n) => TsKey::Number(format!("{}", n.value)),
        _ => TsKey::Other,
    }
}

#[verifier::external_body]
fn boxed(e: &Expression<'_>) -> Box<TsExpr> {
    Box::new(expr_of(e))
}

#[verifier::external_body]
fn expr_of(e: &Expression<'_>) -> TsExpr {
    match e {
        Expression::StringLiteral(s) => TsExpr::Str(s.value.to_string()),
        Expression::TemplateLiteral(t) => template_of(t),
        Expression::BinaryExpression(b) => binary_of(b),
        _ => wrapped_of(e),
    }
}

#[verifier::external_body]
fn template_of(t: &TemplateLiteral<'_>) -> TsExpr {
    let quasis = t.quasis.iter().map(|q| q.value.raw.to_string()).collect();
    TsExpr::Template(quasis, t.expressions.iter().map(expr_of).collect())
}

#[verifier::external_body]
fn binary_of(b: &BinaryExpression<'_>) -> TsExpr {
    match b.operator {
        BinaryOperator::Addition => TsExpr::Add(boxed(&b.left), boxed(&b.right)),
        _ => TsExpr::Other,
    }
}

#[verifier::external_body]
fn wrapped_of(e: &Expression<'_>) -> TsExpr {
    match e {
        Expression::TSAsExpression(x) => TsExpr::Wrapped(boxed(&x.expression)),
        Expression::TSSatisfiesExpression(x) => TsExpr::Wrapped(boxed(&x.expression)),
        Expression::ParenthesizedExpression(x) => TsExpr::Wrapped(boxed(&x.expression)),
        Expression::TSTypeAssertion(x) => TsExpr::Asserted(boxed(&x.expression)),
        _ => compound_of(e),
    }
}

#[verifier::external_body]
fn compound_of(e: &Expression<'_>) -> TsExpr {
    match e {
        Expression::ObjectExpression(o) => object_of(o),
        Expression::ArrayExpression(a) => array_of(a),
        Expression::ConditionalExpression(c) => TsExpr::Conditional(boxed(&c.consequent), boxed(&c.alternate)),
        _ => callable_of(e),
    }
}

#[verifier::external_body]
fn callable_of(e: &Expression<'_>) -> TsExpr {
    match e {
        Expression::ArrowFunctionExpression(a) => arrow_of(a),
        Expression::FunctionExpression(_) => TsExpr::Function,
        Expression::StaticMemberExpression(m) => TsExpr::Member(boxed(&m.object), m.property.name.to_string()),
        Expression::CallExpression(c) => call_of(c),
        _ => TsExpr::Other,
    }
}

#[verifier::external_body]
fn object_of(o: &ObjectExpression<'_>) -> TsExpr {
    TsExpr::Object(o.properties.iter().map(property_of).collect())
}

#[verifier::external_body]
fn property_of(p: &ObjectPropertyKind<'_>) -> TsProperty {
    match p {
        ObjectPropertyKind::ObjectProperty(p) => TsProperty::Prop(key_of(&p.key), expr_of(&p.value)),
        ObjectPropertyKind::SpreadProperty(_) => TsProperty::Spread,
    }
}

#[verifier::external_body]
fn array_of(a: &ArrayExpression<'_>) -> TsExpr {
    TsExpr::Array(a.elements.iter().map(element_of).collect())
}

#[verifier::external_body]
fn element_of(x: &ArrayExpressionElement<'_>) -> TsElement {
    match x {
        ArrayExpressionElement::SpreadElement(_) => TsElement::Spread,
        ArrayExpressionElement::Elision(_) => TsElement::Hole,
        _ => TsElement::Expr(expr_of(x.to_expression())),
    }
}

#[verifier::external_body]
fn arrow_of(a: &ArrowFunctionExpression<'_>) -> TsExpr {
    TsExpr::Arrow(a.body.statements.iter().map(arrow_statement_of).collect())
}

#[verifier::external_body]
fn arrow_statement_of(s: &Statement<'_>) -> TsArrowStatement {
    match s {
        Statement::ExpressionStatement(x) => TsArrowStatement::Expr(expr_of(&x.expression)),
        Statement::ReturnStatement(r) => TsArrowStatement::Return(r.argument.as_ref().map(expr_of)),
        _ => TsArrowStatement::Other,
    }
}

#[verifier::external_body]
fn call_of(c: &CallExpression<'_>) -> TsExpr {
    TsExpr::Call(boxed(&c.callee), c.arguments.iter().map(arg_of).collect())
}

#[verifier::external_body]
fn arg_of(a: &Argument<'_>) -> TsArg {
    match a {
        Argument::StringLiteral(s) => TsArg::Str(s.value.to_string()),
        _ => TsArg::Other,
    }
}

#[verifier::external_body]
fn variables_of(d: &VariableDeclaration<'_>) -> Vec<TsDeclarator> {
    d.declarations.iter().map(declarator_of).collect()
}

#[verifier::external_body]
fn declarator_of(d: &VariableDeclarator<'_>) -> TsDeclarator {
    let name = match &d.id.kind {
        BindingPatternKind::BindingIdentifier(id) => Some(id.name.to_string()),
        _ => None,
    };
    TsDeclarator { name, init: d.init.as_ref().map(expr_of) }
}

#[verifier::external_body]
fn function_of(export: TsExport, f: &Function<'_>) -> TsStatement {
    let params = f.params.items.iter().map(param_of).collect();
    TsStatement::Function(export, f.id.as_ref().map(|id| id.name.to_string()), params)
}

#[verifier::external_body]
fn param_of(p: &FormalParameter<'_>) -> Option<Vec<TsKey>> {
    match &p.pattern.kind {
        BindingPatternKind::ObjectPattern(o) => Some(o.properties.iter().map(|q| key_of(&q.key)).collect()),
        _ => None,
    }
}

#[verifier::external_body]
fn interface_of(i: &TSInterfaceDeclaration<'_>, source: &str) -> TsInterface {
    TsInterface {
        name: i.id.name.to_string(),
        members: i.body.body.iter().map(|s| member_of(s, source)).collect(),
        extends: i.extends.iter().map(heritage_of).collect(),
    }
}

#[verifier::external_body]
fn member_of(s: &TSSignature<'_>, source: &str) -> Option<TsPropSig> {
    let TSSignature::TSPropertySignature(p) = s else {
        return None;
    };
    let type_text = p.type_annotation.as_ref().map(|a| a.type_annotation.span().source_text(source).to_string());
    Some(TsPropSig { key: key_of(&p.key), type_text, optional: p.optional })
}

#[verifier::external_body]
fn heritage_of(h: &TSInterfaceHeritage<'_>) -> Option<String> {
    match &h.expression {
        Expression::Identifier(id) => Some(id.name.to_string()),
        _ => None,
    }
}

#[verifier::external_body]
fn import_of(i: &ImportDeclaration<'_>) -> TsStatement {
    let names = match &i.specifiers {
        Some(list) => list.iter().map(specifier_of).collect(),
        None => Vec::new(),
    };
    TsStatement::Import(i.source.value.to_string(), names)
}

#[verifier::external_body]
fn specifier_of(s: &ImportDeclarationSpecifier<'_>) -> Option<String> {
    match s {
        ImportDeclarationSpecifier::ImportSpecifier(n) => Some(n.local.name.to_string()),
        _ => None,
    }
}

#[verifier::external_body]
fn statement_of(s: &Statement<'_>, source: &str) -> TsStatement {
    match s {
        Statement::VariableDeclaration(d) => TsStatement::Variables(false, variables_of(d)),
        Statement::FunctionDeclaration(f) => function_of(TsExport::Not, f),
        Statement::TSInterfaceDeclaration(i) => TsStatement::Interface(false, interface_of(i, source)),
        Statement::ImportDeclaration(i) => import_of(i),
        Statement::ExportNamedDeclaration(e) => named_export_of(e, source),
        Statement::ExportDefaultDeclaration(e) => default_export_of(e),
        _ => TsStatement::Other,
    }
}

#[verifier::external_body]
fn named_export_of(e: &ExportNamedDeclaration<'_>, source: &str) -> TsStatement {
    match &e.declaration {
        Some(Declaration::VariableDeclaration(d)) => TsStatement::Variables(true, variables_of(d)),
        Some(Declaration::FunctionDeclaration(f)) => function_of(TsExport::Named, f),
        Some(Declaration::TSInterfaceDeclaration(i)) => TsStatement::Interface(true, interface_of(i, source)),
        _ => TsStatement::Other,
    }
}

#[verifier::external_body]
fn default_export_of(e: &ExportDefaultDeclaration<'_>) -> TsStatement {
    match &e.declaration {
        ExportDefaultDeclarationKind::FunctionDeclaration(f) => function_of(TsExport::Default, f),
        _ => TsStatement::Other,
    }
}

/// Parses `source` with `oxc_parser::Parser` (as TSX when `tsx`, else as
/// TypeScript) and gives its top-level statements as library values, and
/// whether the parse reported no errors; `None` when the parser panicked.
/// The contract only names the result: the same text always parses the
/// same.
#[verifier::external_body]
pub fn parse_ts_module(source: &str, tsx: bool) -> (r: Option<TsModule>)
    ensures
        r == parsed_module(source@, tsx),
{
    let allocator = Allocator::default();
    let kind = if tsx { SourceType::tsx() } else { SourceType::ts() };
    let ret = Parser::new(&allocator, source, kind).parse();
    if ret.panicked {
        return None;
    }
    let statements = ret.program.body.iter().map(|s| statement_of(s, source)).collect();
    Some(TsModule { statements, clean: ret.errors.is_empty() })
}

// ---------------------------------------------------------------------------
// JSX
// ---------------------------------------------------------------------------

/// A JSX attribute's value.
#[derive(Debug, Clone)]
pub enum JsxAttrValue {
    /// No value: the attribute is present.
    Absent,
    /// A string literal's value.
    Str(String),
    /// An empty expression container, `{}`.
    Empty,
    /// The source text of an expression, element or fragment.
    Code(String),
}

/// A JSX child: a text child's value, or any other child.
#[derive(Debug, Clone)]
pub enum JsxChildNode {
    Text(String),
    Other,
}

/// A JSX element: its name as written, its attributes (`None` for a
/// spread), its children, the source text from its first child's start to
/// its last child's end, and whether it is self-closing.
#[derive(Debug, Clone)]
pub struct JsxNode {
    pub name: String,
    pub attributes: Vec<Option<(String, JsxAttrValue)>>,
    pub children: Vec<JsxChildNode>,
    pub children_text: String,
    pub self_closing: bool,
}

/// A top-level statement of a JSX snippet: an element, a fragment (its
/// element children; `None` for any other child), or anything else.
#[derive(Debug, Clone)]
pub enum JsxTop {
    Element(JsxNode),
    Fragment(Vec<Option<JsxNode>>),
    Other,
}

/// What oxc's parser gives for a JSX snippet; `None` when it panicked.
pub uninterp spec fn parsed_jsx(source: Seq<char>) -> Option<Vec<JsxTop>>;

#[verifier::external_body]
fn member_name(m: &JSXMemberExpression<'_>) -> String {
    let object = match &m.object {
        JSXMemberExpressionObject::IdentifierReference(id) => id.name.to_string(),
        JSXMemberExpressionObject::MemberExpression(inner) => member_name(inner),
        JSXMemberExpressionObject::ThisExpression(_) => "this".to_string(),
    };
    format!("{}.{}", object, m.property.name)
}

#[verifier::external_body]
fn element_name(n: &JSXElementName<'_>) -> String {
    match n {
        JSXElementName::Identifier(id) => id.name.to_string(),
        JSXElementName::IdentifierReference(id) => id.name.to_string(),
        JSXElementName::NamespacedName(ns) => format!("{}:{}", ns.namespace.name, ns.name.name),
        JSXElementName::MemberExpression(m) => member_name(m),
        JSXElementName::ThisExpression(_) => "this".to_string(),
    }
}

#[verifier::external_body]
fn span_text(source: &str, start: u32, end: u32) -> String {
    source[start as usize..end as usize].to_string()
}

#[verifier::external_body]
fn attribute_of(a: &JSXAttributeItem<'_>, source: &str) -> Option<(String, JsxAttrValue)> {
    let JSXAttributeItem::Attribute(attr) = a else {
        return None;
    };
    Some((attribute_name_of(&attr.name), attribute_value_of(attr.value.as_ref(), source)))
}

#[verifier::external_body]
fn attribute_name_of(n: &JSXAttributeName<'_>) -> String {
    match n {
        JSXAttributeName::Identifier(id) => id.name.to_string(),
        JSXAttributeName::NamespacedName(ns) => format!("{}:{}", ns.namespace.name, ns.name.name),
    }
}

#[verifier::external_body]
fn attribute_value_of(v: Option<&JSXAttributeValue<'_>>, source: &str) -> JsxAttrValue {
    match v {
        None => JsxAttrValue::Absent,
        Some(JSXAttributeValue::StringLiteral(s)) => JsxAttrValue::Str(s.value.to_string()),
        Some(JSXAttributeValue::ExpressionContainer(c)) => container_of(c, source),
        Some(JSXAttributeValue::Element(x)) => JsxAttrValue::Code(span_text(source, x.span.start, x.span.end)),
        Some(JSXAttributeValue::Fragment(x)) => JsxAttrValue::Code(span_text(source, x.span.start, x.span.end)),
    }
}

#[verifier::external_body]
fn container_of(c: &JSXExpressionContainer<'_>, source: &str) -> JsxAttrValue {
    match &c.expression {
        JSXExpression::EmptyExpression(_) => JsxAttrValue::Empty,
        x => JsxAttrValue::Code(span_text(source, x.span().start, x.span().end)),
    }
}

#[verifier::external_body]
fn child_of(c: &JSXChild<'_>) -> JsxChildNode {
    match c {
        JSXChild::Text(t) => JsxChildNode::Text(t.value.to_string()),
        _ => JsxChildNode::Other,
    }
}

#[verifier::external_body]
fn children_text_of(el: &JSXElement<'_>, source: &str) -> String {
    match (el.children.first(), el.children.last()) {
        (Some(a), Some(b)) => span_text(source, a.span().start, b.span().end),
        _ => String::new(),
    }
}

#[verifier::external_body]
fn jsx_node_of(el: &JSXElement<'_>, source: &str) -> JsxNode {
    JsxNode {
        name: element_name(&el.opening_element.name),
        attributes: el.opening_element.attributes.iter().map(|a| attribute_of(a, source)).collect(),
        children: el.children.iter().map(child_of).collect(),
        children_text: children_text_of(el, source),
        self_closing: el.closing_element.is_none(),
    }
}

#[verifier::external_body]
fn fragment_child_of(c: &JSXChild<'_>, source: &str) -> Option<JsxNode> {
    match c {
        JSXChild::Element(el) => Some(jsx_node_of(el, source)),
        _ => None,
    }
}

#[verifier::external_body]
fn jsx_top_of(s: &Statement<'_>, source: &str) -> JsxTop {
    let Statement::ExpressionStatement(x) = s else {
        return JsxTop::Other;
    };
    match &x.expression {
        Expression::JSXElement(el) => JsxTop::Element(jsx_node_of(el, source)),
        Expression::JSXFragment(f) => JsxTop::Fragment(f.children.iter().map(|c| fragment_child_of(c, source)).collect()),
        _ => JsxTop::Other,
    }
}

/// Parses a JSX snippet with `oxc_parser::Parser` and gives its top-level
/// statements as library values; `None` when the parser panicked. The
/// contract only names the result.
#[verifier::external_body]
pub fn parse_jsx(source: &str) -> (r: Option<Vec<JsxTop>>)
    ensures
        r == parsed_jsx(source@),
{
    let allocator = Allocator::default();
    let ret = Parser::new(&allocator, source, SourceType::jsx()).parse();
    if ret.panicked {
        return None;
    }
    Some(ret.program.body.iter().map(|s| jsx_top_of(s, source)).collect())
}

} // verus!
