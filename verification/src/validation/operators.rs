use vstd::prelude::*;
use crate::lexing::token::{TokenType, punct_spelling, lemma_punct_spelling_injective, is_assignment_token};
use super::types::{TypeInfo, Ty};

verus! {

/// The binary operators of the language.
#[derive(Debug, Clone, Copy, PartialEq, Eq, Structural)]
pub enum BinaryOpType {
    Plus,
    Minus,
    Multiply,
    Divide,
    Modulus,
    Equal,
    NotEqual,
    GreaterThan,
    LessThan,
    GreaterThanEqual,
    LessThanEqual,
    And,
    Or,
}

/// The binary operator a token kind stands for, if any.
pub open spec fn binary_op_of(tt: TokenType) -> Option<BinaryOpType> {
    match tt {
        TokenType::Plus => Some(BinaryOpType::Plus),
        TokenType::Minus => Some(BinaryOpType::Minus),
        TokenType::Multiply => Some(BinaryOpType::Multiply),
        TokenType::Divide => Some(BinaryOpType::Divide),
        TokenType::Modulus => Some(BinaryOpType::Modulus),
        TokenType::EqualEqual => Some(BinaryOpType::Equal),
        TokenType::BangEqual => Some(BinaryOpType::NotEqual),
        TokenType::GreaterThan => Some(BinaryOpType::GreaterThan),
        TokenType::GreaterEqual => Some(BinaryOpType::GreaterThanEqual),
        TokenType::LessThan => Some(BinaryOpType::LessThan),
        TokenType::LessEqual => Some(BinaryOpType::LessThanEqual),
        TokenType::AndAnd => Some(BinaryOpType::And),
        TokenType::PipePipe => Some(BinaryOpType::Or),
        _ => None,
    }
}

impl BinaryOpType {
    pub fn from_token_type(tt: TokenType) -> (r: Option<BinaryOpType>)
        ensures
            r == binary_op_of(tt),
    {
        match tt {
            TokenType::Plus => Some(BinaryOpType::Plus),
            TokenType::Minus => Some(BinaryOpType::Minus),
            TokenType::Multiply => Some(BinaryOpType::Multiply),
            TokenType::Divide => Some(BinaryOpType::Divide),
            TokenType::Modulus => Some(BinaryOpType::Modulus),
            TokenType::EqualEqual => Some(BinaryOpType::Equal),
            TokenType::BangEqual => Some(BinaryOpType::NotEqual),
            TokenType::GreaterThan => Some(BinaryOpType::GreaterThan),
            TokenType::GreaterEqual => Some(BinaryOpType::GreaterThanEqual),
            TokenType::LessThan => Some(BinaryOpType::LessThan),
            TokenType::LessEqual => Some(BinaryOpType::LessThanEqual),
            TokenType::AndAnd => Some(BinaryOpType::And),
            TokenType::PipePipe => Some(BinaryOpType::Or),
            _ => None,
        }
    }

    /// The operator as it is written.
    pub fn symbol(&self) -> (r: &'static str)
        ensures
            r@ == binary_symbol(*self),
    {
        match self {
            BinaryOpType::Plus => "+",
            BinaryOpType::Minus => "-",
            BinaryOpType::Multiply => "*",
            BinaryOpType::Divide => "/",
            BinaryOpType::Modulus => "%",
            BinaryOpType::Equal => "==",
            BinaryOpType::NotEqual => "!=",
            BinaryOpType::GreaterThan => ">",
            BinaryOpType::LessThan => "<",
            BinaryOpType::GreaterThanEqual => ">=",
            BinaryOpType::LessThanEqual => "<=",
            BinaryOpType::And => "&&",
            BinaryOpType::Or => "||",
        }
    }
}

pub open spec fn binary_symbol(op: BinaryOpType) -> Seq<char> {
    match op {
        BinaryOpType::Plus => "+"@,
        BinaryOpType::Minus => "-"@,
        BinaryOpType::Multiply => "*"@,
        BinaryOpType::Divide => "/"@,
        BinaryOpType::Modulus => "%"@,
        BinaryOpType::Equal => "=="@,
        BinaryOpType::NotEqual => "!="@,
        BinaryOpType::GreaterThan => ">"@,
        BinaryOpType::LessThan => "<"@,
        BinaryOpType::GreaterThanEqual => ">="@,
        BinaryOpType::LessThanEqual => "<="@,
        BinaryOpType::And => "&&"@,
        BinaryOpType::Or => "||"@,
    }
}

/// How tightly a binary operator binds, by the grammar's precedence: `*`,
/// `/` and `%` bind tightest (0), then `+` and `-`, then `>`, `<`, `>=` and
/// `<=`, then `==` and `!=`, then `||`, and `&&` loosest (5).
pub open spec fn op_precedence(op: BinaryOpType) -> nat {
    match op {
        BinaryOpType::Multiply | BinaryOpType::Divide | BinaryOpType::Modulus => 0,
        BinaryOpType::Plus | BinaryOpType::Minus => 1,
        BinaryOpType::GreaterThan | BinaryOpType::LessThan | BinaryOpType::GreaterThanEqual
        | BinaryOpType::LessThanEqual => 2,
        BinaryOpType::Equal | BinaryOpType::NotEqual => 3,
        BinaryOpType::Or => 4,
        BinaryOpType::And => 5,
    }
}

/// The operator a token stands for is the one written the same way: a token
/// gives operator `op` exactly when the token is spelled as `op` is written
/// (`!=` gives `NotEqual`, `==` gives `Equal`, `<=` gives `LessThanEqual`, ...).
pub proof fn lemma_binary_op_spelled(t: TokenType, op: BinaryOpType)
    ensures
        binary_op_of(t) == Some(op) <==> punct_spelling(t) == Some(binary_symbol(op)),
{
    reveal_strlit("+");
    reveal_strlit("-");
    reveal_strlit("*");
    reveal_strlit("/");
    reveal_strlit("%");
    reveal_strlit("==");
    reveal_strlit("!=");
    reveal_strlit(">");
    reveal_strlit("<");
    reveal_strlit(">=");
    reveal_strlit("<=");
    reveal_strlit("&&");
    reveal_strlit("||");
    let t2 = match op {
        BinaryOpType::Plus => TokenType::Plus,
        BinaryOpType::Minus => TokenType::Minus,
        BinaryOpType::Multiply => TokenType::Multiply,
        BinaryOpType::Divide => TokenType::Divide,
        BinaryOpType::Modulus => TokenType::Modulus,
        BinaryOpType::Equal => TokenType::EqualEqual,
        BinaryOpType::NotEqual => TokenType::BangEqual,
        BinaryOpType::GreaterThan => TokenType::GreaterThan,
        BinaryOpType::LessThan => TokenType::LessThan,
        BinaryOpType::GreaterThanEqual => TokenType::GreaterEqual,
        BinaryOpType::LessThanEqual => TokenType::LessEqual,
        BinaryOpType::And => TokenType::AndAnd,
        BinaryOpType::Or => TokenType::PipePipe,
    };
    assert(punct_spelling(t2)->0 =~= binary_symbol(op));
    assert(binary_op_of(t2) == Some(op));
    lemma_punct_spelling_injective(t, t2);
    if binary_op_of(t) == Some(op) {
        lemma_binary_op_injective(t, t2);
    }
}

/// The assignment tokens are exactly the punctuation written with a final `=`
/// that is not a comparison: `=`, `+=`, `-=`, `*=`, `/=` and `%=`.
pub proof fn lemma_assignment_tokens_spelled(t: TokenType)
    ensures
        is_assignment_token(t) <==> (punct_spelling(t) is Some && punct_spelling(t)->0.last() == '='
            && binary_op_of(t) is None),
{
}

/// Distinct operator tokens stand for distinct operators.
pub proof fn lemma_binary_op_injective(t1: TokenType, t2: TokenType)
    ensures
        binary_op_of(t1) is Some && binary_op_of(t1) == binary_op_of(t2) ==> t1 == t2,
{
}

/// Distinct operators are written differently.
pub proof fn lemma_binary_symbol_injective(a: BinaryOpType, b: BinaryOpType)
    ensures
        binary_symbol(a) == binary_symbol(b) ==> a == b,
{
    reveal_strlit("+");
    reveal_strlit("-");
    reveal_strlit("*");
    reveal_strlit("/");
    reveal_strlit("%");
    reveal_strlit("==");
    reveal_strlit("!=");
    reveal_strlit(">");
    reveal_strlit("<");
    reveal_strlit(">=");
    reveal_strlit("<=");
    reveal_strlit("&&");
    reveal_strlit("||");
    if binary_symbol(a) == binary_symbol(b) {
        let s = binary_symbol(a);
        assert(s[0] == binary_symbol(b)[0]);
        if s.len() == 2 {
            assert(s[1] == binary_symbol(b)[1]);
        }
    }
}

/// The prefix operators of the language.
#[derive(Debug, Clone, Copy, PartialEq, Eq, Structural)]
pub enum UnaryOpType {
    Negate,
    Invert,
}

pub open spec fn unary_op_of(tt: TokenType) -> Option<UnaryOpType> {
    match tt {
        TokenType::Minus => Some(UnaryOpType::Negate),
        TokenType::Bang => Some(UnaryOpType::Invert),
        _ => None,
    }
}

pub open spec fn unary_symbol(op: UnaryOpType) -> Seq<char> {
    match op {
        UnaryOpType::Negate => "-"@,
        UnaryOpType::Invert => "!"@,
    }
}

/// The prefix operator a token stands for is the one written the same way:
/// `-` gives `Negate` and `!` gives `Invert`.
pub proof fn lemma_unary_op_spelled(t: TokenType, op: UnaryOpType)
    ensures
        unary_op_of(t) == Some(op) <==> punct_spelling(t) == Some(unary_symbol(op)),
{
    reveal_strlit("-");
    reveal_strlit("!");
    let t2 = match op {
        UnaryOpType::Negate => TokenType::Minus,
        UnaryOpType::Invert => TokenType::Bang,
    };
    assert(punct_spelling(t2)->0 =~= unary_symbol(op));
    lemma_punct_spelling_injective(t, t2);
}

impl UnaryOpType {
    pub fn from_token_type(tt: TokenType) -> (r: Option<UnaryOpType>)
        ensures
            r == unary_op_of(tt),
    {
        match tt {
            TokenType::Minus => Some(UnaryOpType::Negate),
            TokenType::Bang => Some(UnaryOpType::Invert),
            _ => None,
        }
    }

    pub fn symbol(&self) -> (r: &'static str)
        ensures
            r@ == unary_symbol(*self),
    {
        match self {
            UnaryOpType::Negate => "-",
            UnaryOpType::Invert => "!",
        }
    }
}

/// A binary operator over two operand types, and the type it gives.
#[derive(Debug)]
pub struct BinaryOp {
    pub left: TypeInfo,
    pub right: TypeInfo,
    pub result: TypeInfo,
    pub op: BinaryOpType,
}

/// A binary rule as values: operator, left type, right type, result type.
pub open spec fn bin_view(b: BinaryOp) -> (BinaryOpType, Ty, Ty, Ty) {
    (b.op, b.left@, b.right@, b.result@)
}

impl BinaryOp {
    /// `key op key` gives `key`.
    pub fn make_uniform(key: TypeInfo, op: BinaryOpType) -> (r: Self)
        ensures
            bin_view(r) == (op, key@, key@, key@),
    {
        BinaryOp { left: key.copy(), right: key.copy(), result: key, op }
    }

    /// `key op key` gives `returned`.
    pub fn make_isosceles(key: TypeInfo, returned: TypeInfo, op: BinaryOpType) -> (r: Self)
        ensures
            bin_view(r) == (op, key@, key@, returned@),
    {
        let mut uniform = Self::make_uniform(key, op);
        uniform.result = returned;
        uniform
    }
}

/// A prefix operator on one operand type, and the type it gives.
#[derive(Debug)]
pub struct UnaryOp {
    pub op: UnaryOpType,
    pub input: TypeInfo,
    pub result: TypeInfo,
}

pub open spec fn un_view(u: UnaryOp) -> (UnaryOpType, Ty, Ty) {
    (u.op, u.input@, u.result@)
}

/// The result of the first rule, in order, for `op` on these operand types.
pub open spec fn bin_rule(rules: Seq<(BinaryOpType, Ty, Ty, Ty)>, l: Ty, r: Ty, op: BinaryOpType) -> Option<Ty>
    decreases rules.len(),
{
    if rules.len() == 0 {
        None
    } else if rules[0].0 == op && rules[0].1 == l && rules[0].2 == r {
        Some(rules[0].3)
    } else {
        bin_rule(rules.drop_first(), l, r, op)
    }
}

/// A rule added after the others never overrides them: it answers only for
/// operands that no earlier rule covers.
pub proof fn lemma_bin_rule_push(rules: Seq<(BinaryOpType, Ty, Ty, Ty)>, x: (BinaryOpType, Ty, Ty, Ty), l: Ty, r: Ty, op: BinaryOpType)
    ensures
        bin_rule(rules.push(x), l, r, op) == match bin_rule(rules, l, r, op) {
            Some(t) => Some(t),
            None => if x.0 == op && x.1 == l && x.2 == r {
                Some(x.3)
            } else {
                None
            },
        },
    decreases rules.len(),
{
    if rules.len() > 0 {
        assert(rules.push(x)[0] == rules[0]);
        assert(rules.push(x).drop_first() =~= rules.drop_first().push(x));
        lemma_bin_rule_push(rules.drop_first(), x, l, r, op);
    } else {
        assert(rules.push(x) =~= seq![x]);
        assert(seq![x].drop_first() =~= Seq::<(BinaryOpType, Ty, Ty, Ty)>::empty());
        assert(bin_rule(rules.push(x).drop_first(), l, r, op) is None);
        assert(bin_rule(rules, l, r, op) is None);
    }
}

/// The same for prefix rules.
pub proof fn lemma_un_rule_push(rules: Seq<(UnaryOpType, Ty, Ty)>, x: (UnaryOpType, Ty, Ty), t: Ty, op: UnaryOpType)
    ensures
        un_rule(rules.push(x), t, op) == match un_rule(rules, t, op) {
            Some(v) => Some(v),
            None => if x.0 == op && x.1 == t {
                Some(x.2)
            } else {
                None
            },
        },
    decreases rules.len(),
{
    if rules.len() > 0 {
        assert(rules.push(x)[0] == rules[0]);
        assert(rules.push(x).drop_first() =~= rules.drop_first().push(x));
        lemma_un_rule_push(rules.drop_first(), x, t, op);
    } else {
        assert(rules.push(x) =~= seq![x]);
        assert(seq![x].drop_first() =~= Seq::<(UnaryOpType, Ty, Ty)>::empty());
        assert(un_rule(rules.push(x).drop_first(), t, op) is None);
        assert(un_rule(rules, t, op) is None);
    }
}

/// The result of the first prefix rule, in order, for `op` on this operand type.
pub open spec fn un_rule(rules: Seq<(UnaryOpType, Ty, Ty)>, t: Ty, op: UnaryOpType) -> Option<Ty>
    decreases rules.len(),
{
    if rules.len() == 0 {
        None
    } else if rules[0].0 == op && rules[0].1 == t {
        Some(rules[0].2)
    } else {
        un_rule(rules.drop_first(), t, op)
    }
}

/// What a cast gives: a type to itself, or a type to its optional.
pub open spec fn cast_rule(e: Ty, c: Ty) -> Option<Ty> {
    if e == c {
        Some(c)
    } else if c matches Ty::Optional(inner) && *inner == e {
        Some(c)
    } else {
        None
    }
}

/// The operators known to the checker, each list in the order they were added.
pub struct GlobalOperators {
    binary_ops: Vec<BinaryOp>,
    unary_ops: Vec<UnaryOp>,
}

impl GlobalOperators {
    pub closed spec fn binary_rules(&self) -> Seq<(BinaryOpType, Ty, Ty, Ty)> {
        self.binary_ops@.map_values(|b: BinaryOp| bin_view(b))
    }

    pub closed spec fn unary_rules(&self) -> Seq<(UnaryOpType, Ty, Ty)> {
        self.unary_ops@.map_values(|u: UnaryOp| un_view(u))
    }

    pub fn new() -> (r: Self)
        ensures
            r.binary_rules() == Seq::<(BinaryOpType, Ty, Ty, Ty)>::empty(),
            r.unary_rules() == Seq::<(UnaryOpType, Ty, Ty)>::empty(),
    {
        let r = GlobalOperators { binary_ops: Vec::new(), unary_ops: Vec::new() };
        assert(r.binary_rules() =~= Seq::<(BinaryOpType, Ty, Ty, Ty)>::empty());
        assert(r.unary_rules() =~= Seq::<(UnaryOpType, Ty, Ty)>::empty());
        r
    }

    pub fn add_binary_op(&mut self, op: BinaryOp)
        ensures
            final(self).binary_rules() == old(self).binary_rules().push(bin_view(op)),
            final(self).unary_rules() == old(self).unary_rules(),
    {
        self.binary_ops.push(op);
        assert(self.binary_rules() =~= old(self).binary_rules().push(bin_view(op)));
    }

    pub fn add_unary_op(&mut self, op: UnaryOp)
        ensures
            final(self).unary_rules() == old(self).unary_rules().push(un_view(op)),
            final(self).binary_rules() == old(self).binary_rules(),
    {
        self.unary_ops.push(op);
        assert(self.unary_rules() =~= old(self).unary_rules().push(un_view(op)));
    }

    /// The type `left op right` has, by the first matching rule.
    pub fn evaluate_binary(&self, left: &TypeInfo, right: &TypeInfo, op: BinaryOpType) -> (r: Option<TypeInfo>)
        ensures
            match r {
                Some(t) => bin_rule(self.binary_rules(), left@, right@, op) == Some(t@),
                None => bin_rule(self.binary_rules(), left@, right@, op) is None,
            },
    {
        let ghost rules = self.binary_rules();
        assert(rules.subrange(0, rules.len() as int) =~= rules);
        let mut i: usize = 0;
        while i < self.binary_ops.len()
            invariant
                i <= self.binary_ops@.len(),
                rules == self.binary_rules(),
                rules.len() == self.binary_ops@.len(),
                bin_rule(rules, left@, right@, op) == bin_rule(rules.subrange(i as int, rules.len() as int), left@, right@, op),
            decreases self.binary_ops@.len() - i,
        {
            let ghost rest = rules.subrange(i as int, rules.len() as int);
            assert(rest[0] == bin_view(self.binary_ops@[i as int]));
            assert(rest.drop_first() =~= rules.subrange(i + 1, rules.len() as int));
            let b = &self.binary_ops[i];
            if b.op == op && b.left.same(left) && b.right.same(right) {
                return Some(b.result.copy());
            }
            i += 1;
        }
        None
    }

    /// The type `op t` has, by the first matching rule.
    pub fn evaluate_unary(&self, input: &TypeInfo, op: UnaryOpType) -> (r: Option<TypeInfo>)
        ensures
            match r {
                Some(t) => un_rule(self.unary_rules(), input@, op) == Some(t@),
                None => un_rule(self.unary_rules(), input@, op) is None,
            },
    {
        let ghost rules = self.unary_rules();
        assert(rules.subrange(0, rules.len() as int) =~= rules);
        let mut i: usize = 0;
        while i < self.unary_ops.len()
            invariant
                i <= self.unary_ops@.len(),
                rules == self.unary_rules(),
                rules.len() == self.unary_ops@.len(),
                un_rule(rules, input@, op) == un_rule(rules.subrange(i as int, rules.len() as int), input@, op),
            decreases self.unary_ops@.len() - i,
        {
            let ghost rest = rules.subrange(i as int, rules.len() as int);
            assert(rest[0] == un_view(self.unary_ops@[i as int]));
            assert(rest.drop_first() =~= rules.subrange(i + 1, rules.len() as int));
            let u = &self.unary_ops[i];
            if u.op == op && u.input.same(input) {
                return Some(u.result.copy());
            }
            i += 1;
        }
        None
    }

    /// The type `e as c` has: the same type, or its optional.
    pub fn evaluate_cast(&self, expr: &TypeInfo, cast: &TypeInfo) -> (r: Option<TypeInfo>)
        ensures
            match r {
                Some(t) => cast_rule(expr@, cast@) == Some(t@),
                None => cast_rule(expr@, cast@) is None,
            },
    {
        if expr.same(cast) {
            return Some(cast.copy());
        }
        match cast {
            TypeInfo::Optional(inner) => {
                if inner.same(expr) {
                    Some(cast.copy())
                } else {
                    None
                }
            },
            _ => None,
        }
    }
}

} // verus!
