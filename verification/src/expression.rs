//! Expressions: the syntax tree, its view, and the resolver's pass over it.

use std::rc::Rc;
use vstd::prelude::*;
use crate::error_reporter::{lemma_with_concat, lemma_with_one, token_report, ErrorReporter, ReportView};
use crate::table::Table;
use crate::token::{Literal, LiteralView, Token, TokenView};

verus! {

/// Whether the code being resolved lies inside a class.
#[derive(Debug, Clone, Copy, PartialEq, Eq, Structural)]
pub enum ClassType {
    TopLevel,
    Class,
}

/// An expression. A variable, an assignment and `this` carry the distance of
/// the scope that declares their name, once the resolver has found one.
#[derive(Debug)]
#[allow(inconsistent_fields)]
pub enum Expression {
    Binary { left: Rc<Expression>, operator: Token, right: Rc<Expression> },
    Call { callee: Rc<Expression>, paren: Token, arguments: Rc<Vec<Rc<Expression>>> },
    Grouping { expression: Rc<Expression> },
    Literal { value: Literal },
    Unary { operator: Token, right: Rc<Expression> },
    Variable { name: Token, depth: Option<usize> },
    Assignment { name: Token, value: Rc<Expression>, depth: Option<usize> },
    Logical { left: Rc<Expression>, operator: Token, right: Rc<Expression> },
    Get { object: Rc<Expression>, name: Token },
    SetProperty { object: Rc<Expression>, name: Token, value: Rc<Expression> },
    This { keyword: Token, depth: Option<usize> },
}

/// The mathematical view of an expression.
#[allow(inconsistent_fields)]
pub enum ExpressionView {
    Binary { left: Box<ExpressionView>, operator: TokenView, right: Box<ExpressionView> },
    Call { callee: Box<ExpressionView>, paren: TokenView, arguments: Seq<ExpressionView> },
    Grouping { expression: Box<ExpressionView> },
    Literal { value: LiteralView },
    Unary { operator: TokenView, right: Box<ExpressionView> },
    Variable { name: TokenView, depth: Option<usize> },
    Assignment { name: TokenView, value: Box<ExpressionView>, depth: Option<usize> },
    Logical { left: Box<ExpressionView>, operator: TokenView, right: Box<ExpressionView> },
    Get { object: Box<ExpressionView>, name: TokenView },
    SetProperty { object: Box<ExpressionView>, name: TokenView, value: Box<ExpressionView> },
    This { keyword: TokenView, depth: Option<usize> },
}

/// The view of an expression.
pub open spec fn expression_view(e: Expression) -> ExpressionView
    decreases e,
{
    match e {
        Expression::Binary { left, operator, right } => ExpressionView::Binary {
            left: Box::new(expression_view(*left)),
            operator: operator@,
            right: Box::new(expression_view(*right)),
        },
        Expression::Call { callee, paren, arguments } => ExpressionView::Call {
            callee: Box::new(expression_view(*callee)),
            paren: paren@,
            arguments: Seq::new(
                arguments@.len(),
                |i: int|
                    if 0 <= i < arguments@.len() {
                        expression_view(*arguments@[i])
                    } else {
                        ExpressionView::Literal { value: LiteralView::Nil }
                    },
            ),
        },
        Expression::Grouping { expression } => ExpressionView::Grouping {
            expression: Box::new(expression_view(*expression)),
        },
        Expression::Literal { value } => ExpressionView::Literal { value: value@ },
        Expression::Unary { operator, right } => ExpressionView::Unary {
            operator: operator@,
            right: Box::new(expression_view(*right)),
        },
        Expression::Variable { name, depth } => ExpressionView::Variable { name: name@, depth },
        Expression::Assignment { name, value, depth } => ExpressionView::Assignment {
            name: name@,
            value: Box::new(expression_view(*value)),
            depth,
        },
        Expression::Logical { left, operator, right } => ExpressionView::Logical {
            left: Box::new(expression_view(*left)),
            operator: operator@,
            right: Box::new(expression_view(*right)),
        },
        Expression::Get { object, name } => ExpressionView::Get {
            object: Box::new(expression_view(*object)),
            name: name@,
        },
        Expression::SetProperty { object, name, value } => ExpressionView::SetProperty {
            object: Box::new(expression_view(*object)),
            name: name@,
            value: Box::new(expression_view(*value)),
        },
        Expression::This { keyword, depth } => ExpressionView::This { keyword: keyword@, depth },
    }
}

impl View for Expression {
    type V = ExpressionView;

    open spec fn view(&self) -> ExpressionView {
        expression_view(*self)
    }
}

/// The views of a list of expressions.
pub open spec fn expression_views(list: Seq<Rc<Expression>>) -> Seq<ExpressionView> {
    Seq::new(list.len(), |i: int| expression_view(*list[i]))
}

/// The scopes that the resolver keeps: for each, the names declared in it
/// and whether each is defined yet. The innermost scope is last.
pub type Scopes = Seq<Map<Seq<char>, bool>>;

/// The scopes that a stack of tables stands for.
pub open spec fn scopes_view(scopes: Seq<Table<bool>>) -> Scopes {
    Seq::new(scopes.len(), |i: int| scopes[i].map())
}

/// The distance from the innermost scope to the nearest scope that declares
/// a name: 0 for the innermost. `None` where no scope declares it.
pub open spec fn depth_in(scopes: Scopes, name: Seq<char>) -> Option<usize>
    decreases scopes.len(),
{
    if scopes.len() == 0 {
        None
    } else if scopes.last().dom().contains(name) {
        Some(0)
    } else {
        match depth_in(scopes.drop_last(), name) {
            Some(d) => Some((d + 1) as usize),
            None => None,
        }
    }
}

/// A depth that the resolver finds is below the number of scopes.
pub proof fn lemma_depth_in_bound(scopes: Scopes, name: Seq<char>)
    ensures
        depth_in(scopes, name) matches Some(d) ==> d < scopes.len(),
    decreases scopes.len(),
{
    if scopes.len() > 0 && !scopes.last().dom().contains(name) {
        lemma_depth_in_bound(scopes.drop_last(), name);
    }
}

/// What resolving a piece of syntax gives: the syntax with its depths, and
/// the errors found, in the order in which they are reported.
pub struct Resolved<T> {
    pub node: T,
    pub reports: Seq<ReportView>,
}

/// Whether a name is declared in the innermost scope and not defined yet.
pub open spec fn declared_undefined(scopes: Scopes, name: Seq<char>) -> bool {
    scopes.len() > 0 && scopes.last().dom().contains(name) && !scopes.last()[name]
}

/// Resolving an expression under a stack of scopes.
///
/// A variable, an assignment target and `this` get the distance of the
/// nearest scope that declares their name, and no depth where none does.
/// Reading a variable that the innermost scope has declared and not yet
/// defined is an error, and so is `this` outside of a class.
pub open spec fn resolve_expression(
    e: ExpressionView,
    scopes: Scopes,
    class_type: ClassType,
) -> Resolved<ExpressionView>
    decreases e,
{
    match e {
        ExpressionView::Variable { name, depth } => Resolved {
            node: ExpressionView::Variable { name, depth: depth_in(scopes, name.lexeme) },
            reports: if declared_undefined(scopes, name.lexeme) {
                seq![token_report(name, "Can't read local variable in it's own initializer."@)]
            } else {
                Seq::empty()
            },
        },
        ExpressionView::Assignment { name, value, depth } => {
            let v = resolve_expression(*value, scopes, class_type);
            Resolved {
                node: ExpressionView::Assignment {
                    name,
                    value: Box::new(v.node),
                    depth: depth_in(scopes, name.lexeme),
                },
                reports: v.reports,
            }
        },
        ExpressionView::Binary { left, operator, right } => {
            let l = resolve_expression(*left, scopes, class_type);
            let r = resolve_expression(*right, scopes, class_type);
            Resolved {
                node: ExpressionView::Binary {
                    left: Box::new(l.node),
                    operator,
                    right: Box::new(r.node),
                },
                reports: l.reports + r.reports,
            }
        },
        ExpressionView::Call { callee, paren, arguments } => {
            let c = resolve_expression(*callee, scopes, class_type);
            let a = resolve_expressions(arguments, scopes, class_type);
            Resolved {
                node: ExpressionView::Call { callee: Box::new(c.node), paren, arguments: a.node },
                reports: c.reports + a.reports,
            }
        },
        ExpressionView::Grouping { expression } => {
            let inner = resolve_expression(*expression, scopes, class_type);
            Resolved {
                node: ExpressionView::Grouping { expression: Box::new(inner.node) },
                reports: inner.reports,
            }
        },
        ExpressionView::Literal { value } => Resolved { node: e, reports: Seq::empty() },
        ExpressionView::Logical { left, operator, right } => {
            let l = resolve_expression(*left, scopes, class_type);
            let r = resolve_expression(*right, scopes, class_type);
            Resolved {
                node: ExpressionView::Logical {
                    left: Box::new(l.node),
                    operator,
                    right: Box::new(r.node),
                },
                reports: l.reports + r.reports,
            }
        },
        ExpressionView::Unary { operator, right } => {
            let r = resolve_expression(*right, scopes, class_type);
            Resolved {
                node: ExpressionView::Unary { operator, right: Box::new(r.node) },
                reports: r.reports,
            }
        },
        ExpressionView::Get { object, name } => {
            let o = resolve_expression(*object, scopes, class_type);
            Resolved {
                node: ExpressionView::Get { object: Box::new(o.node), name },
                reports: o.reports,
            }
        },
        ExpressionView::SetProperty { object, name, value } => {
            let v = resolve_expression(*value, scopes, class_type);
            let o = resolve_expression(*object, scopes, class_type);
            Resolved {
                node: ExpressionView::SetProperty {
                    object: Box::new(o.node),
                    name,
                    value: Box::new(v.node),
                },
                reports: v.reports + o.reports,
            }
        },
        ExpressionView::This { keyword, depth } => {
            if class_type == ClassType::TopLevel {
                Resolved {
                    node: ExpressionView::This { keyword, depth: None },
                    reports: seq![token_report(keyword, "Can't use 'this' outside of a class."@)],
                }
            } else {
                Resolved {
                    node: ExpressionView::This { keyword, depth: depth_in(scopes, keyword.lexeme) },
                    reports: Seq::empty(),
                }
            }
        },
    }
}

/// Resolving a list of expressions, first to last, under the same scopes.
pub open spec fn resolve_expressions(
    list: Seq<ExpressionView>,
    scopes: Scopes,
    class_type: ClassType,
) -> Resolved<Seq<ExpressionView>>
    decreases list,
{
    if list.len() == 0 {
        Resolved { node: Seq::empty(), reports: Seq::empty() }
    } else {
        let front = resolve_expressions(list.drop_last(), scopes, class_type);
        let last = resolve_expression(list.last(), scopes, class_type);
        Resolved { node: front.node.push(last.node), reports: front.reports + last.reports }
    }
}

/// Whether every depth in an expression is below `n`: with `n` scopes around
/// it, every resolved reference names one of them.
pub open spec fn expression_scoped(e: ExpressionView, n: nat) -> bool
    decreases e,
{
    match e {
        ExpressionView::Variable { name, depth } => depth matches Some(d) ==> d < n,
        ExpressionView::Assignment { name, value, depth } => {
            &&& depth matches Some(d) ==> d < n
            &&& expression_scoped(*value, n)
        },
        ExpressionView::Binary { left, operator, right } => expression_scoped(*left, n)
            && expression_scoped(*right, n),
        ExpressionView::Call { callee, paren, arguments } => {
            &&& expression_scoped(*callee, n)
            &&& forall|i: int|
                0 <= i < arguments.len() ==> expression_scoped(#[trigger] arguments[i], n)
        },
        ExpressionView::Grouping { expression } => expression_scoped(*expression, n),
        ExpressionView::Literal { value } => true,
        ExpressionView::Logical { left, operator, right } => expression_scoped(*left, n)
            && expression_scoped(*right, n),
        ExpressionView::Unary { operator, right } => expression_scoped(*right, n),
        ExpressionView::Get { object, name } => expression_scoped(*object, n),
        ExpressionView::SetProperty { object, name, value } => expression_scoped(*object, n)
            && expression_scoped(*value, n),
        ExpressionView::This { keyword, depth } => depth matches Some(d) ==> d < n,
    }
}

/// Whether the operators in an expression are operators of their position:
/// `!` or `-` before one operand, `or` or `and` in a logical expression, an
/// arithmetic, comparison or equality operator between two operands.
pub open spec fn expression_well_formed(e: ExpressionView) -> bool
    decreases e,
{
    match e {
        ExpressionView::Variable { name, depth } => true,
        ExpressionView::Assignment { name, value, depth } => expression_well_formed(*value),
        ExpressionView::Binary { left, operator, right } => {
            &&& is_binary_operator(operator)
            &&& expression_well_formed(*left)
            &&& expression_well_formed(*right)
        },
        ExpressionView::Call { callee, paren, arguments } => {
            &&& expression_well_formed(*callee)
            &&& forall|i: int|
                0 <= i < arguments.len() ==> expression_well_formed(#[trigger] arguments[i])
        },
        ExpressionView::Grouping { expression } => expression_well_formed(*expression),
        ExpressionView::Literal { value } => true,
        ExpressionView::Logical { left, operator, right } => {
            &&& (operator.token_type is Or || operator.token_type is And)
            &&& expression_well_formed(*left)
            &&& expression_well_formed(*right)
        },
        ExpressionView::Unary { operator, right } => {
            &&& (operator.token_type is Minus || operator.token_type is Bang)
            &&& expression_well_formed(*right)
        },
        ExpressionView::Get { object, name } => expression_well_formed(*object),
        ExpressionView::SetProperty { object, name, value } => expression_well_formed(*object)
            && expression_well_formed(*value),
        ExpressionView::This { keyword, depth } => true,
    }
}

/// Whether a token is an operator that stands between two operands.
pub open spec fn is_binary_operator(operator: TokenView) -> bool {
    let t = operator.token_type;
    t is Greater || t is GreaterEqual || t is Less || t is LessEqual || t is BangEqual
        || t is EqualEqual || t is Minus || t is Slash || t is Star || t is Plus
}

/// Resolving a list keeps its length, and resolves each item by itself.
pub proof fn lemma_resolve_expressions_items(
    list: Seq<ExpressionView>,
    scopes: Scopes,
    class_type: ClassType,
)
    ensures
        resolve_expressions(list, scopes, class_type).node.len() == list.len(),
        forall|i: int|
            0 <= i < list.len() ==> (#[trigger] resolve_expressions(
                list,
                scopes,
                class_type,
            ).node[i]) == resolve_expression(list[i], scopes, class_type).node,
    decreases list.len(),
{
    if list.len() > 0 {
        lemma_resolve_expressions_items(list.drop_last(), scopes, class_type);
    }
}

/// Every depth that resolving leaves in an expression is below the number of
/// scopes, and resolving keeps the operators.
pub proof fn lemma_resolve_expression_scoped(
    e: ExpressionView,
    scopes: Scopes,
    class_type: ClassType,
)
    ensures
        expression_scoped(resolve_expression(e, scopes, class_type).node, scopes.len()),
        expression_well_formed(e) ==> expression_well_formed(
            resolve_expression(e, scopes, class_type).node,
        ),
    decreases e,
{
    match e {
        ExpressionView::Variable { name, depth } => {
            lemma_depth_in_bound(scopes, name.lexeme);
        },
        ExpressionView::Assignment { name, value, depth } => {
            lemma_depth_in_bound(scopes, name.lexeme);
            lemma_resolve_expression_scoped(*value, scopes, class_type);
        },
        ExpressionView::Binary { left, operator, right } => {
            lemma_resolve_expression_scoped(*left, scopes, class_type);
            lemma_resolve_expression_scoped(*right, scopes, class_type);
        },
        ExpressionView::Call { callee, paren, arguments } => {
            lemma_resolve_expression_scoped(*callee, scopes, class_type);
            lemma_resolve_expressions_items(arguments, scopes, class_type);
            let resolved = resolve_expressions(arguments, scopes, class_type).node;
            assert forall|i: int| 0 <= i < resolved.len() implies expression_scoped(
                #[trigger] resolved[i],
                scopes.len(),
            ) && (expression_well_formed(e) ==> expression_well_formed(resolved[i])) by {
                lemma_resolve_expression_scoped(arguments[i], scopes, class_type);
            }
        },
        ExpressionView::Grouping { expression } => {
            lemma_resolve_expression_scoped(*expression, scopes, class_type);
        },
        ExpressionView::Literal { value } => {},
        ExpressionView::Logical { left, operator, right } => {
            lemma_resolve_expression_scoped(*left, scopes, class_type);
            lemma_resolve_expression_scoped(*right, scopes, class_type);
        },
        ExpressionView::Unary { operator, right } => {
            lemma_resolve_expression_scoped(*right, scopes, class_type);
        },
        ExpressionView::Get { object, name } => {
            lemma_resolve_expression_scoped(*object, scopes, class_type);
        },
        ExpressionView::SetProperty { object, name, value } => {
            lemma_resolve_expression_scoped(*object, scopes, class_type);
            lemma_resolve_expression_scoped(*value, scopes, class_type);
        },
        ExpressionView::This { keyword, depth } => {
            lemma_depth_in_bound(scopes, keyword.lexeme);
        },
    }
}

/// Computes the distance of the nearest scope that declares a name.
pub fn find_depth(scopes: &Vec<Table<bool>>, name: &String) -> (depth: Option<usize>)
    ensures
        depth == depth_in(scopes_view(scopes@), name@),
{
    let n = scopes.len();
    let mut i: usize = n;
    let ghost all = scopes_view(scopes@);
    proof {
        assert(all.subrange(0, n as int) =~= all);
    }
    while i > 0
        invariant
            i <= n,
            n == scopes@.len(),
            all == scopes_view(scopes@),
            forall|j: int| i <= j < n ==> !(#[trigger] all[j]).dom().contains(name@),
            depth_in(all, name@) == match depth_in(all.subrange(0, i as int), name@) {
                Some(d) => Some((d + (n - i)) as usize),
                None => None,
            },
        decreases i,
    {
        let ghost prefix = all.subrange(0, i as int);
        proof {
            assert(prefix.last() == all[i - 1]);
            assert(prefix.drop_last() =~= all.subrange(0, i - 1));
            lemma_depth_in_bound(all.subrange(0, i - 1), name@);
        }
        if scopes[i - 1].contains_key(name) {
            return Some(n - i);
        }
        i -= 1;
    }
    None
}

impl Expression {
    /// Resolves this expression: gives back the expression with the depth of
    /// every variable, assignment target and `this` in it, and reports the
    /// errors found.
    pub fn resolve(
        &self,
        scopes: &Vec<Table<bool>>,
        class_type: &ClassType,
        reporter: &mut ErrorReporter,
    ) -> (resolved: Expression)
        ensures
            resolved@ == resolve_expression(self@, scopes_view(scopes@), *class_type).node,
            final(reporter)@ == old(reporter)@.with_all(
                resolve_expression(self@, scopes_view(scopes@), *class_type).reports,
            ),
        decreases self,
    {
        let ghost all = scopes_view(scopes@);
        let ghost start = reporter@;
        match self {
            Expression::Variable { name, depth } => {
                let n = scopes.len();
                if n > 0 {
                    assert(all.last() == scopes@[n - 1].map());
                    match scopes[n - 1].get(name.name()) {
                        Some(defined) => {
                            if !*defined {
                                reporter.error_on_token(
                                    name,
                                    "Can't read local variable in it's own initializer.",
                                );
                            }
                        },
                        None => {},
                    }
                }
                proof {
                    lemma_with_one(
                        start,
                        token_report(name@, "Can't read local variable in it's own initializer."@),
                    );
                }
                Expression::Variable { name: name.duplicate(), depth: find_depth(scopes, name.name()) }
            },
            Expression::Assignment { name, value, depth } => {
                let v = value.resolve(scopes, class_type, reporter);
                Expression::Assignment {
                    name: name.duplicate(),
                    value: Rc::new(v),
                    depth: find_depth(scopes, name.name()),
                }
            },
            Expression::Binary { left, operator, right } => {
                let l = left.resolve(scopes, class_type, reporter);
                let r = right.resolve(scopes, class_type, reporter);
                proof {
                    lemma_with_concat(
                        start,
                        resolve_expression(left@, all, *class_type).reports,
                        resolve_expression(right@, all, *class_type).reports,
                    );
                }
                Expression::Binary {
                    left: Rc::new(l),
                    operator: operator.duplicate(),
                    right: Rc::new(r),
                }
            },
            Expression::Call { callee, paren, arguments } => {
                let c = callee.resolve(scopes, class_type, reporter);
                let ghost views = expression_views(arguments@);
                let ghost middle = reporter@;
                let mut resolved: Vec<Rc<Expression>> = Vec::new();
                let mut i: usize = 0;
                proof {
                    assert(views.subrange(0, 0) =~= Seq::<ExpressionView>::empty());
                    assert(expression_views(resolved@) =~= Seq::<ExpressionView>::empty());
                }
                while i < arguments.len()
                    invariant
                        i <= arguments@.len(),
                        self matches Expression::Call { arguments: inner, .. } && inner == arguments,
                        views == expression_views(arguments@),
                        all == scopes_view(scopes@),
                        expression_views(resolved@) == resolve_expressions(
                            views.subrange(0, i as int),
                            all,
                            *class_type,
                        ).node,
                        reporter@ == middle.with_all(
                            resolve_expressions(views.subrange(0, i as int), all, *class_type).reports,
                        ),
                    decreases arguments@.len() - i,
                {
                    let ghost old_resolved = resolved@;
                    let a = arguments[i].resolve(scopes, class_type, reporter);
                    resolved.push(Rc::new(a));
                    proof {
                        let prefix = views.subrange(0, i as int);
                        let next = views.subrange(0, i + 1);
                        assert(next.drop_last() =~= prefix);
                        assert(next.last() == arguments@[i as int]@);
                        lemma_with_concat(
                            middle,
                            resolve_expressions(prefix, all, *class_type).reports,
                            resolve_expression(next.last(), all, *class_type).reports,
                        );
                        assert(expression_views(resolved@) =~= expression_views(old_resolved).push(
                            a@,
                        ));
                    }
                    i += 1;
                }
                proof {
                    assert(views.subrange(0, i as int) =~= views);
                    lemma_with_concat(
                        start,
                        resolve_expression(callee@, all, *class_type).reports,
                        resolve_expressions(views, all, *class_type).reports,
                    );
                    assert(self@->Call_arguments =~= views);
                }
                let result = Expression::Call {
                    callee: Rc::new(c),
                    paren: paren.duplicate(),
                    arguments: Rc::new(resolved),
                };
                proof {
                    assert(result@->Call_arguments =~= expression_views(resolved@));
                }
                result
            },
            Expression::Grouping { expression } => {
                let inner = expression.resolve(scopes, class_type, reporter);
                Expression::Grouping { expression: Rc::new(inner) }
            },
            Expression::Literal { value } => {
                Expression::Literal { value: value.duplicate() }
            },
            Expression::Logical { left, operator, right } => {
                let l = left.resolve(scopes, class_type, reporter);
                let r = right.resolve(scopes, class_type, reporter);
                proof {
                    lemma_with_concat(
                        start,
                        resolve_expression(left@, all, *class_type).reports,
                        resolve_expression(right@, all, *class_type).reports,
                    );
                }
                Expression::Logical {
                    left: Rc::new(l),
                    operator: operator.duplicate(),
                    right: Rc::new(r),
                }
            },
            Expression::Unary { operator, right } => {
                let r = right.resolve(scopes, class_type, reporter);
                Expression::Unary { operator: operator.duplicate(), right: Rc::new(r) }
            },
            Expression::Get { object, name } => {
                let o = object.resolve(scopes, class_type, reporter);
                Expression::Get { object: Rc::new(o), name: name.duplicate() }
            },
            Expression::SetProperty { object, name, value } => {
                let v = value.resolve(scopes, class_type, reporter);
                let o = object.resolve(scopes, class_type, reporter);
                proof {
                    lemma_with_concat(
                        start,
                        resolve_expression(value@, all, *class_type).reports,
                        resolve_expression(object@, all, *class_type).reports,
                    );
                }
                Expression::SetProperty { object: Rc::new(o), name: name.duplicate(), value: Rc::new(v) }
            },
            Expression::This { keyword, depth } => {
                match class_type {
                    ClassType::TopLevel => {
                        reporter.error_on_token(keyword, "Can't use 'this' outside of a class.");
                        proof {
                            lemma_with_one(
                                start,
                                token_report(keyword@, "Can't use 'this' outside of a class."@),
                            );
                        }
                        Expression::This { keyword: keyword.duplicate(), depth: None }
                    },
                    ClassType::Class => {
                        Expression::This {
                            keyword: keyword.duplicate(),
                            depth: find_depth(scopes, keyword.name()),
                        }
                    },
                }
            },
        }
    }
}

} // verus!
