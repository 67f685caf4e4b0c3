//! The parts of a SQL text that federation looks at, as trees of plain values.

use crate::decimal;
use crate::text;
use sqlparser::ast::{Expr, TableFactor, Value};
use sqlparser::tokenizer::Token;
use vstd::prelude::*;

verus! {

#[verifier::external_type_specification]
#[verifier::external_body]
pub struct ExStatement(sqlparser::ast::Statement);

#[verifier::external_type_specification]
#[verifier::external_body]
pub struct ExQuery(sqlparser::ast::Query);

#[verifier::external_type_specification]
#[verifier::external_body]
pub struct ExSetExpr(sqlparser::ast::SetExpr);

#[verifier::external_type_specification]
#[verifier::external_body]
pub struct ExTableWithJoins(sqlparser::ast::TableWithJoins);

#[verifier::external_type_specification]
#[verifier::external_body]
pub struct ExTableFactor(sqlparser::ast::TableFactor);

#[verifier::external_type_specification]
#[verifier::external_body]
pub struct ExExpr(sqlparser::ast::Expr);

#[verifier::external_type_specification]
#[verifier::external_body]
pub struct ExBinaryOperator(sqlparser::ast::BinaryOperator);

/// An operator between two parts of a condition.
#[derive(Debug, Clone, Copy, PartialEq, Eq, Structural)]
pub enum Operator {
    And,
    Or,
    Gt,
    GtEq,
    Lt,
    LtEq,
    Other,
}

/// A condition of a query.
#[derive(Debug)]
pub enum Condition {
    Binary(Box<Condition>, Operator, Box<Condition>),
    /// The name of a column, with what it is qualified by in front of it.
    Column(Vec<String>),
    Number(String),
    Quoted(String),
    Other,
}

/// A query: the queries that it names first, and its body.
#[derive(Debug)]
pub struct QueryTree {
    pub ctes: Vec<(String, QueryTree)>,
    pub body: SetTree,
}

/// The body of a query.
#[derive(Debug)]
pub enum SetTree {
    Select(Vec<SourceTree>, Option<Condition>),
    Nested(Box<QueryTree>),
    Pair(Box<SetTree>, Box<SetTree>),
    Other,
}

/// A source of rows, with those that are joined to it.
#[derive(Debug)]
pub struct SourceTree {
    pub first: FactorTree,
    pub joined: Vec<FactorTree>,
}

#[derive(Debug)]
pub enum FactorTree {
    /// The name of a table, with what it is qualified by in front of it.
    Named(Vec<String>),
    Derived(Box<QueryTree>),
    Nested(Box<SourceTree>),
    Other,
}

#[derive(Debug)]
pub enum StatementTree {
    Select(QueryTree),
    Other,
}

pub enum ConditionModel {
    Binary(Box<ConditionModel>, Operator, Box<ConditionModel>),
    Column(Seq<Seq<char>>),
    Number(Seq<char>),
    Quoted(Seq<char>),
    Other,
}

pub struct QueryModel {
    pub ctes: Seq<(Seq<char>, QueryModel)>,
    pub body: SetModel,
}

pub enum SetModel {
    Select(Seq<SourceModel>, Option<ConditionModel>),
    Nested(Box<QueryModel>),
    Pair(Box<SetModel>, Box<SetModel>),
    Other,
}

pub struct SourceModel {
    pub first: FactorModel,
    pub joined: Seq<FactorModel>,
}

pub enum FactorModel {
    Named(Seq<Seq<char>>),
    Derived(Box<QueryModel>),
    Nested(Box<SourceModel>),
    Other,
}

pub enum StatementModel {
    Select(QueryModel),
    Other,
}

impl Condition {
    pub open spec fn view(&self) -> ConditionModel
        decreases self,
    {
        match self {
            Condition::Binary(left, op, right) => ConditionModel::Binary(
                Box::new(left@),
                *op,
                Box::new(right@),
            ),
            Condition::Column(parts) => ConditionModel::Column(text::views(parts@)),
            Condition::Number(s) => ConditionModel::Number(s@),
            Condition::Quoted(s) => ConditionModel::Quoted(s@),
            Condition::Other => ConditionModel::Other,
        }
    }
}

pub open spec fn optional_condition(c: Option<Condition>) -> Option<ConditionModel> {
    match c {
        Some(c) => Some(c@),
        None => None,
    }
}

impl QueryTree {
    pub open spec fn view(&self) -> QueryModel
        decreases self,
    {
        QueryModel {
            ctes: Seq::new(
                self.ctes@.len(),
                |i: int|
                    if 0 <= i < self.ctes@.len() {
                        (self.ctes@[i].0@, self.ctes@[i].1@)
                    } else {
                        arbitrary()
                    },
            ),
            body: self.body@,
        }
    }
}

impl SetTree {
    pub open spec fn view(&self) -> SetModel
        decreases self,
    {
        match self {
            SetTree::Select(from, selection) => SetModel::Select(
                Seq::new(
                    from@.len(),
                    |i: int|
                        if 0 <= i < from@.len() {
                            from@[i]@
                        } else {
                            arbitrary()
                        },
                ),
                optional_condition(*selection),
            ),
            SetTree::Nested(q) => SetModel::Nested(Box::new(q@)),
            SetTree::Pair(a, b) => SetModel::Pair(Box::new(a@), Box::new(b@)),
            SetTree::Other => SetModel::Other,
        }
    }
}

impl SourceTree {
    pub open spec fn view(&self) -> SourceModel
        decreases self,
    {
        SourceModel {
            first: self.first@,
            joined: Seq::new(
                self.joined@.len(),
                |i: int|
                    if 0 <= i < self.joined@.len() {
                        self.joined@[i]@
                    } else {
                        arbitrary()
                    },
            ),
        }
    }
}

impl FactorTree {
    pub open spec fn view(&self) -> FactorModel
        decreases self,
    {
        match self {
            FactorTree::Named(parts) => FactorModel::Named(text::views(parts@)),
            FactorTree::Derived(q) => FactorModel::Derived(Box::new(q@)),
            FactorTree::Nested(s) => FactorModel::Nested(Box::new(s@)),
            FactorTree::Other => FactorModel::Other,
        }
    }
}

impl View for StatementTree {
    type V = StatementModel;

    open spec fn view(&self) -> StatementModel {
        match self {
            StatementTree::Select(q) => StatementModel::Select(q@),
            StatementTree::Other => StatementModel::Other,
        }
    }
}

pub open spec fn statement_models(statements: Seq<StatementTree>) -> Seq<StatementModel> {
    statements.map_values(|s: StatementTree| s@)
}

/// What a condition of `sqlparser` holds, as far as federation looks at it.
pub uninterp spec fn condition_model(e: sqlparser::ast::Expr) -> ConditionModel;

/// Which operator an operator of `sqlparser` is.
pub uninterp spec fn operator_model(op: sqlparser::ast::BinaryOperator) -> Operator;

/// What a query of `sqlparser` holds, as far as federation looks at it.
pub uninterp spec fn query_model(q: sqlparser::ast::Query) -> QueryModel;

/// What the body of a query of `sqlparser` holds, as far as federation looks at it.
pub uninterp spec fn set_model(s: sqlparser::ast::SetExpr) -> SetModel;

/// What a source of rows of `sqlparser` holds, as far as federation looks at it.
pub uninterp spec fn source_model(s: sqlparser::ast::TableWithJoins) -> SourceModel;

/// What a single source of rows of `sqlparser` holds, as far as federation looks at it.
pub uninterp spec fn factor_model(f: sqlparser::ast::TableFactor) -> FactorModel;

/// What a statement of `sqlparser` holds, as far as federation looks at it.
pub uninterp spec fn statement_model(s: sqlparser::ast::Statement) -> StatementModel;

/// The statements that `sqlparser::parser::Parser::parse_sql` reads from a text with the
/// generic dialect, or the text of its error.
pub uninterp spec fn parsed_sql(sql: Seq<char>) -> Result<Seq<StatementModel>, Seq<char>>;

/// The tokens that `sqlparser::tokenizer::Tokenizer` reads from a text with the generic
/// dialect, nothing where it reports an error.
pub uninterp spec fn sql_tokens(sql: Seq<char>) -> Option<Seq<TokenModel>>;

/// A token of a SQL text. A word is told by its keyword, as `NoKeyword` where it is none;
/// quoted is a text in quotes that is no word; anything else is told as it is written.
#[derive(Debug)]
pub enum SqlToken {
    Word(String),
    Number(String),
    Quoted,
    Space,
    Symbol(String),
}

pub enum TokenModel {
    Word(Seq<char>),
    Number(Seq<char>),
    Quoted,
    Space,
    Symbol(Seq<char>),
}

impl View for SqlToken {
    type V = TokenModel;

    open spec fn view(&self) -> TokenModel {
        match self {
            SqlToken::Word(k) => TokenModel::Word(k@),
            SqlToken::Number(s) => TokenModel::Number(s@),
            SqlToken::Quoted => TokenModel::Quoted,
            SqlToken::Space => TokenModel::Space,
            SqlToken::Symbol(s) => TokenModel::Symbol(s@),
        }
    }
}

pub open spec fn token_models(tokens: Seq<SqlToken>) -> Seq<TokenModel> {
    tokens.map_values(|t: SqlToken| t@)
}

/// `sqlparser::tokenizer::Tokenizer::tokenize` with the generic dialect. The result is a
/// function of the text.
#[verifier::external_body]
fn tokenize(sql: &str) -> (r: Option<Vec<SqlToken>>)
    ensures
        r is Some == sql_tokens(sql@) is Some,
        r is Some ==> token_models(r->0@) == sql_tokens(sql@)->0,
{
    let dialect = sqlparser::dialect::GenericDialect {};
    let tokens = sqlparser::tokenizer::Tokenizer::new(&dialect, sql).tokenize().ok()?;
    Some(tokens.into_iter().map(|t| match t {
        Token::Word(w) => SqlToken::Word(format!("{:?}", w.keyword)),
        Token::Number(s, _) => SqlToken::Number(s),
        Token::SingleQuotedString(_) | Token::DoubleQuotedString(_) => SqlToken::Quoted,
        Token::Whitespace(_) => SqlToken::Space,
        other => SqlToken::Symbol(other.to_string()),
    }).collect())
}

/// The tokens that are no white space.
pub open spec fn solid(tokens: Seq<TokenModel>) -> Seq<TokenModel>
    decreases tokens.len(),
{
    if tokens.len() == 0 {
        Seq::empty()
    } else if tokens.last() is Space {
        solid(tokens.drop_last())
    } else {
        solid(tokens.drop_last()).push(tokens.last())
    }
}

/// Whether a word stands at a place.
pub open spec fn word_at(t: Seq<TokenModel>, i: int, word: Seq<char>) -> bool {
    0 <= i < t.len() && t[i] == TokenModel::Word(word)
}

/// Whether a symbol stands at a place.
pub open spec fn symbol_at(t: Seq<TokenModel>, i: int, symbol: Seq<char>) -> bool {
    0 <= i < t.len() && t[i] == TokenModel::Symbol(symbol)
}

/// Whether an identifier stands at a place.
pub open spec fn identifier_at(t: Seq<TokenModel>, i: int) -> bool {
    0 <= i < t.len() && (t[i] is Word || t[i] is Quoted)
}

/// Whether a number that is no whole number up to `max` stands at a place.
pub open spec fn over_at(t: Seq<TokenModel>, i: int, max: nat) -> bool {
    0 <= i < t.len() && t[i] is Number && decimal::unsigned_value(t[i]->Number_0, max) is None
}

/// Whether a number stands at a place.
pub open spec fn number_at(t: Seq<TokenModel>, i: int) -> bool {
    0 <= i < t.len() && t[i] is Number
}

/// Whether a word stands in front of a place, in the same statement.
pub open spec fn behind(t: Seq<TokenModel>, i: int, word: Seq<char>) -> bool
    decreases i,
{
    if i <= 0 || symbol_at(t, i - 1, ";"@) {
        false
    } else {
        word_at(t, i - 1, word) || behind(t, i - 1, word)
    }
}

/// Whether no name stands at a place, or one that breaks off behind a period.
pub open spec fn name_open(t: Seq<TokenModel>, i: int) -> bool
    decreases t.len() - i,
{
    if !identifier_at(t, i) {
        true
    } else {
        symbol_at(t, i + 1, "."@) && name_open(t, i + 2)
    }
}

/// `GRANTED BY` without an identifier behind it, in a `GRANT` or `REVOKE`.
pub open spec fn granted_at(t: Seq<TokenModel>, i: int) -> bool {
    &&& word_at(t, i, "GRANTED"@)
    &&& word_at(t, i + 1, "BY"@)
    &&& !identifier_at(t, i + 2)
    &&& behind(t, i, "GRANT"@) || behind(t, i, "REVOKE"@)
}

/// `RELAY LOGS FOR CHANNEL` without a whole name behind it, in a `FLUSH`.
pub open spec fn channel_at(t: Seq<TokenModel>, i: int) -> bool {
    &&& word_at(t, i, "RELAY"@)
    &&& word_at(t, i + 1, "LOGS"@)
    &&& word_at(t, i + 2, "FOR"@)
    &&& word_at(t, i + 3, "CHANNEL"@)
    &&& name_open(t, i + 4)
    &&& behind(t, i, "FLUSH"@)
}

/// Whether `TABLE` stands at a place, or behind the words that may stand between it and
/// `CREATE`.
pub open spec fn leads_to_table(t: Seq<TokenModel>, i: int) -> bool
    decreases t.len() - i,
{
    if word_at(t, i, "TABLE"@) {
        true
    } else {
        create_modifier_at(t, i) && leads_to_table(t, i + 1)
    }
}

pub open spec fn create_modifier_at(t: Seq<TokenModel>, i: int) -> bool {
    ||| word_at(t, i, "OR"@)
    ||| word_at(t, i, "REPLACE"@)
    ||| word_at(t, i, "ALTER"@)
    ||| word_at(t, i, "LOCAL"@)
    ||| word_at(t, i, "GLOBAL"@)
    ||| word_at(t, i, "TRANSIENT"@)
    ||| word_at(t, i, "TEMP"@)
    ||| word_at(t, i, "TEMPORARY"@)
}

pub open spec fn set_operator_at(t: Seq<TokenModel>, i: int) -> bool {
    ||| word_at(t, i, "UNION"@)
    ||| word_at(t, i, "EXCEPT"@)
    ||| word_at(t, i, "INTERSECT"@)
}

/// Whether something that is no name stands where `LIKE`, `ILIKE`, `CLONE` or a period asks
/// for one. At the head of a `CREATE TABLE` the parser passes over it, whatever it is.
pub open spec fn passed_over(t: Seq<TokenModel>, i: int) -> bool {
    &&& 0 <= i < t.len()
    &&& !identifier_at(t, i)
    &&& {
        ||| word_at(t, i - 1, "LIKE"@)
        ||| word_at(t, i - 1, "ILIKE"@)
        ||| word_at(t, i - 1, "CLONE"@)
        ||| symbol_at(t, i - 1, "."@)
    }
}

/// Whether a `SELECT`, `INSERT` or `UPDATE` that begins a query stands at a place: behind
/// `AS`, behind a closing parenthesis, behind something but a period that is passed over, or
/// behind the words that connect two queries. As a mere name the word does not stand there,
/// but for what a row format has for its nulls.
pub open spec fn query_at(t: Seq<TokenModel>, i: int) -> bool {
    &&& word_at(t, i, "SELECT"@) || word_at(t, i, "INSERT"@) || word_at(t, i, "UPDATE"@)
    &&& {
        ||| word_at(t, i - 1, "AS"@) && !word_at(t, i - 2, "DEFINED"@)
        ||| symbol_at(t, i - 1, ")"@)
        ||| passed_over(t, i - 1) && !symbol_at(t, i - 1, "."@)
        ||| set_operator_at(t, i - 1)
        ||| (word_at(t, i - 1, "ALL"@) || word_at(t, i - 1, "DISTINCT"@)) && set_operator_at(
            t,
            i - 2,
        )
    }
}

/// Whether a place is at the head of a `CREATE TABLE`, where only words, names and what is
/// passed over stand.
pub open spec fn in_table_head(t: Seq<TokenModel>, i: int) -> bool
    decreases i,
{
    if i <= 0 {
        false
    } else if word_at(t, i - 1, "CREATE"@) && leads_to_table(t, i) {
        true
    } else if query_at(t, i - 1) {
        false
    } else {
        (identifier_at(t, i - 1) || symbol_at(t, i - 1, "."@) || passed_over(t, i - 1))
            && in_table_head(t, i - 1)
    }
}

/// Whether the options of a `CREATE TABLE` may stand at a place: walking back to the
/// beginning of the statement, outside of parentheses that are closed on the way, leads to
/// one, or to what is passed over at the head of one, and neither out of a parenthesis nor
/// to a query. `depth` parentheses were closed.
pub open spec fn in_table_options(t: Seq<TokenModel>, i: int, depth: nat) -> bool
    decreases i,
{
    if i <= 0 {
        false
    } else if depth == 0 && passed_over(t, i - 1) && in_table_head(t, i - 1) {
        true
    } else if symbol_at(t, i - 1, ";"@) {
        false
    } else if symbol_at(t, i - 1, ")"@) {
        in_table_options(t, i - 1, depth + 1)
    } else if symbol_at(t, i - 1, "("@) {
        depth > 0 && in_table_options(t, i - 1, (depth - 1) as nat)
    } else if depth == 0 && word_at(t, i - 1, "CREATE"@) && leads_to_table(t, i) {
        true
    } else if depth == 0 && query_at(t, i - 1) {
        false
    } else {
        in_table_options(t, i - 1, depth)
    }
}

/// `AUTO_INCREMENT`, with or without `=`, and a number that is no `u32`, among the options of
/// a `CREATE TABLE`.
pub open spec fn auto_increment_at(t: Seq<TokenModel>, i: int) -> bool {
    &&& word_at(t, i, "AUTO_INCREMENT"@)
    &&& over_at(t, i + 1, u32::MAX as nat) || (symbol_at(t, i + 1, "="@) && over_at(
        t,
        i + 2,
        u32::MAX as nat,
    ))
    &&& in_table_options(t, i, 0)
}

/// `{n}`, `{n,}`, `{,n}` or `{n,m}` with a number that is no `u32`, behind
/// `MATCH_RECOGNIZE`.
pub open spec fn repetition_at(t: Seq<TokenModel>, i: int) -> bool {
    let max = u32::MAX as nat;
    &&& symbol_at(t, i, "{"@)
    &&& {
        ||| over_at(t, i + 1, max) && symbol_at(t, i + 2, "}"@)
        ||| over_at(t, i + 1, max) && symbol_at(t, i + 2, ","@) && symbol_at(t, i + 3, "}"@)
        ||| symbol_at(t, i + 1, ","@) && over_at(t, i + 2, max) && symbol_at(t, i + 3, "}"@)
        ||| number_at(t, i + 1) && symbol_at(t, i + 2, ","@) && number_at(t, i + 3) && symbol_at(
            t,
            i + 4,
            "}"@,
        ) && (over_at(t, i + 1, max) || over_at(t, i + 3, max))
    }
    &&& behind(t, i, "MATCH_RECOGNIZE"@)
}

/// Whether the parenthesis around a place is that of `SELECT DISTINCT ON`. `depth`
/// parentheses were closed on the way back to the place.
pub open spec fn in_distinct_on(t: Seq<TokenModel>, i: int, depth: nat) -> bool
    decreases i,
{
    if i <= 0 {
        false
    } else if symbol_at(t, i - 1, ")"@) {
        in_distinct_on(t, i - 1, depth + 1)
    } else if symbol_at(t, i - 1, "("@) {
        if depth > 0 {
            in_distinct_on(t, i - 1, (depth - 1) as nat)
        } else {
            word_at(t, i - 2, "ON"@) && word_at(t, i - 3, "DISTINCT"@) && word_at(
                t,
                i - 4,
                "SELECT"@,
            )
        }
    } else {
        in_distinct_on(t, i - 1, depth)
    }
}

/// `TOP` and a number that is no `u64`, at the beginning of a `SELECT`: behind it, with
/// nothing but `ALL`, `DISTINCT` or `DISTINCT ON (..)` between them.
pub open spec fn top_at(t: Seq<TokenModel>, i: int) -> bool {
    &&& word_at(t, i, "TOP"@)
    &&& over_at(t, i + 1, u64::MAX as nat)
    &&& {
        ||| word_at(t, i - 1, "SELECT"@)
        ||| (word_at(t, i - 1, "ALL"@) || word_at(t, i - 1, "DISTINCT"@)) && word_at(
            t,
            i - 2,
            "SELECT"@,
        )
        ||| symbol_at(t, i - 1, ")"@) && in_distinct_on(t, i - 1, 0)
    }
}

pub open spec fn granted_by_open(t: Seq<TokenModel>) -> bool {
    exists|i: int| #[trigger] granted_at(t, i)
}

pub open spec fn relay_channel_open(t: Seq<TokenModel>) -> bool {
    exists|i: int| #[trigger] channel_at(t, i)
}

pub open spec fn auto_increment_over(t: Seq<TokenModel>) -> bool {
    exists|i: int| #[trigger] auto_increment_at(t, i)
}

pub open spec fn repetition_over(t: Seq<TokenModel>) -> bool {
    exists|i: int| #[trigger] repetition_at(t, i)
}

pub open spec fn top_over(t: Seq<TokenModel>) -> bool {
    exists|i: int| #[trigger] top_at(t, i)
}

/// Whether the parser may give up on the tokens by a panic: where it reads a name that is
/// not there, or a number that does not fit. White space is skipped.
pub open spec fn may_panic(tokens: Seq<TokenModel>) -> bool {
    let t = solid(tokens);
    ||| granted_by_open(t)
    ||| relay_channel_open(t)
    ||| auto_increment_over(t)
    ||| repetition_over(t)
    ||| top_over(t)
}

/// Whether the parser takes a text without a panic.
pub open spec fn parseable(sql: Seq<char>) -> bool {
    sql_tokens(sql) is Some ==> !may_panic(sql_tokens(sql)->0)
}

spec fn ref_models(t: Seq<&SqlToken>) -> Seq<TokenModel> {
    t.map_values(|t: &SqlToken| (*t)@)
}

/// The tokens that are no white space.
fn solid_tokens(tokens: &Vec<SqlToken>) -> (r: Vec<&SqlToken>)
    ensures
        ref_models(r@) == solid(token_models(tokens@)),
{
    let ghost all = token_models(tokens@);
    let mut r: Vec<&SqlToken> = Vec::new();
    let mut i: usize = 0;
    assert(ref_models(r@) =~= solid(all.take(0)));
    while i < tokens.len()
        invariant
            i <= tokens@.len(),
            all == token_models(tokens@),
            ref_models(r@) == solid(all.take(i as int)),
        decreases tokens@.len() - i,
    {
        assert(all.take(i + 1).drop_last() =~= all.take(i as int));
        assert(all.take(i + 1).last() == tokens@[i as int]@);
        match &tokens[i] {
            SqlToken::Space => {},
            token => {
                let ghost was = r@;
                r.push(token);
                assert(ref_models(r@) =~= ref_models(was).push((*token)@));
            },
        }
        i += 1;
    }
    assert(all.take(i as int) =~= all);
    r
}

fn is_word(t: &Vec<&SqlToken>, i: usize, word: &str) -> (r: bool)
    ensures
        r == word_at(ref_models(t@), i as int, word@),
{
    if i < t.len() {
        match t[i] {
            SqlToken::Word(k) => text::same(k.as_str(), word),
            _ => false,
        }
    } else {
        false
    }
}

fn is_identifier(t: &Vec<&SqlToken>, i: usize) -> (r: bool)
    ensures
        r == identifier_at(ref_models(t@), i as int),
{
    i < t.len() && matches!(t[i], SqlToken::Word(_) | SqlToken::Quoted)
}

fn is_number(t: &Vec<&SqlToken>, i: usize) -> (r: bool)
    ensures
        r == number_at(ref_models(t@), i as int),
{
    i < t.len() && matches!(t[i], SqlToken::Number(_))
}

fn is_over_u32(t: &Vec<&SqlToken>, i: usize) -> (r: bool)
    ensures
        r == over_at(ref_models(t@), i as int, u32::MAX as nat),
{
    if i < t.len() {
        match t[i] {
            SqlToken::Number(s) => decimal::parse_u32(s.as_str()).is_none(),
            _ => false,
        }
    } else {
        false
    }
}

fn is_over_u64(t: &Vec<&SqlToken>, i: usize) -> (r: bool)
    ensures
        r == over_at(ref_models(t@), i as int, u64::MAX as nat),
{
    if i < t.len() {
        match t[i] {
            SqlToken::Number(s) => decimal::parse_u64(s.as_str()).is_none(),
            _ => false,
        }
    } else {
        false
    }
}

fn is_symbol(t: &Vec<&SqlToken>, i: usize, symbol: &str) -> (r: bool)
    ensures
        r == symbol_at(ref_models(t@), i as int, symbol@),
{
    if i < t.len() {
        match t[i] {
            SqlToken::Symbol(s) => text::same(s.as_str(), symbol),
            _ => false,
        }
    } else {
        false
    }
}

fn is_behind(t: &Vec<&SqlToken>, i: usize, word: &str) -> (r: bool)
    requires
        i <= t@.len(),
    ensures
        r == behind(ref_models(t@), i as int, word@),
{
    let ghost all = ref_models(t@);
    let mut k: usize = i;
    while k > 0
        invariant
            k <= i <= t@.len(),
            all == ref_models(t@),
            behind(all, i as int, word@) == behind(all, k as int, word@),
        decreases k,
    {
        if is_symbol(t, k - 1, ";") {
            return false;
        }
        if is_word(t, k - 1, word) {
            return true;
        }
        k -= 1;
    }
    false
}

fn is_name_open(t: &Vec<&SqlToken>, i: usize) -> (r: bool)
    requires
        i <= t@.len(),
    ensures
        r == name_open(ref_models(t@), i as int),
{
    let ghost all = ref_models(t@);
    let mut k: usize = i;
    while is_identifier(t, k)
        invariant
            k <= t@.len(),
            all == ref_models(t@),
            name_open(all, i as int) == name_open(all, k as int),
        decreases t@.len() - k,
    {
        assert(t.len() == t@.len());
        if is_symbol(t, k + 1, ".") {
            k += 2;
        } else {
            return false;
        }
    }
    true
}

fn is_granted(t: &Vec<&SqlToken>, i: usize) -> (r: bool)
    requires
        i < t@.len(),
    ensures
        r == granted_at(ref_models(t@), i as int),
{
    assert(t.len() == t@.len());
    is_word(t, i, "GRANTED") && is_word(t, i + 1, "BY") && !is_identifier(t, i + 2) && (is_behind(
        t,
        i,
        "GRANT",
    ) || is_behind(t, i, "REVOKE"))
}

fn is_relay_channel(t: &Vec<&SqlToken>, i: usize) -> (r: bool)
    requires
        i < t@.len(),
    ensures
        r == channel_at(ref_models(t@), i as int),
{
    assert(t.len() == t@.len());
    is_word(t, i, "RELAY") && is_word(t, i + 1, "LOGS") && is_word(t, i + 2, "FOR") && is_word(
        t,
        i + 3,
        "CHANNEL",
    ) && is_name_open(t, i + 4) && is_behind(t, i, "FLUSH")
}

fn is_create_modifier(t: &Vec<&SqlToken>, i: usize) -> (r: bool)
    ensures
        r == create_modifier_at(ref_models(t@), i as int),
{
    is_word(t, i, "OR") || is_word(t, i, "REPLACE") || is_word(t, i, "ALTER") || is_word(
        t,
        i,
        "LOCAL",
    ) || is_word(t, i, "GLOBAL") || is_word(t, i, "TRANSIENT") || is_word(t, i, "TEMP") || is_word(
        t,
        i,
        "TEMPORARY",
    )
}

fn is_leading_to_table(t: &Vec<&SqlToken>, i: usize) -> (r: bool)
    requires
        i <= t@.len(),
    ensures
        r == leads_to_table(ref_models(t@), i as int),
{
    let ghost all = ref_models(t@);
    let mut k: usize = i;
    while k < t.len()
        invariant
            k <= t@.len(),
            all == ref_models(t@),
            leads_to_table(all, i as int) == leads_to_table(all, k as int),
        decreases t@.len() - k,
    {
        if is_word(t, k, "TABLE") {
            return true;
        }
        if !is_create_modifier(t, k) {
            return false;
        }
        k += 1;
    }
    false
}

fn is_set_operator(t: &Vec<&SqlToken>, i: usize) -> (r: bool)
    ensures
        r == set_operator_at(ref_models(t@), i as int),
{
    is_word(t, i, "UNION") || is_word(t, i, "EXCEPT") || is_word(t, i, "INTERSECT")
}

fn is_passed_over(t: &Vec<&SqlToken>, i: usize) -> (r: bool)
    ensures
        r == passed_over(ref_models(t@), i as int),
{
    if i == 0 || i >= t.len() || is_identifier(t, i) {
        return false;
    }
    is_word(t, i - 1, "LIKE") || is_word(t, i - 1, "ILIKE") || is_word(t, i - 1, "CLONE")
        || is_symbol(t, i - 1, ".")
}

fn is_query(t: &Vec<&SqlToken>, i: usize) -> (r: bool)
    ensures
        r == query_at(ref_models(t@), i as int),
{
    let begins = is_word(t, i, "SELECT") || is_word(t, i, "INSERT") || is_word(t, i, "UPDATE");
    if i == 0 || !begins {
        return false;
    }
    let second = i >= 2;
    let named = is_word(t, i - 1, "AS") && !(second && is_word(t, i - 2, "DEFINED"));
    let passed = is_passed_over(t, i - 1) && !is_symbol(t, i - 1, ".");
    let joined = is_set_operator(t, i - 1) || ((is_word(t, i - 1, "ALL") || is_word(
        t,
        i - 1,
        "DISTINCT",
    )) && second && is_set_operator(t, i - 2));
    named || is_symbol(t, i - 1, ")") || passed || joined
}

fn is_in_table_head(t: &Vec<&SqlToken>, i: usize) -> (r: bool)
    requires
        i <= t@.len(),
    ensures
        r == in_table_head(ref_models(t@), i as int),
{
    let ghost all = ref_models(t@);
    let mut k: usize = i;
    while k > 0
        invariant
            k <= i <= t@.len(),
            all == ref_models(t@),
            in_table_head(all, i as int) == in_table_head(all, k as int),
        decreases k,
    {
        if is_word(t, k - 1, "CREATE") && is_leading_to_table(t, k) {
            return true;
        }
        if is_query(t, k - 1) {
            return false;
        }
        if !is_identifier(t, k - 1) && !is_symbol(t, k - 1, ".") && !is_passed_over(t, k - 1) {
            return false;
        }
        k -= 1;
    }
    false
}

fn is_in_table_options(t: &Vec<&SqlToken>, i: usize) -> (r: bool)
    requires
        i <= t@.len(),
    ensures
        r == in_table_options(ref_models(t@), i as int, 0),
{
    let ghost all = ref_models(t@);
    let mut k: usize = i;
    let mut depth: usize = 0;
    while k > 0
        invariant
            k + depth <= i <= t@.len(),
            all == ref_models(t@),
            in_table_options(all, i as int, 0) == in_table_options(all, k as int, depth as nat),
        decreases k,
    {
        if depth == 0 && is_passed_over(t, k - 1) && is_in_table_head(t, k - 1) {
            return true;
        }
        if is_symbol(t, k - 1, ";") {
            return false;
        } else if is_symbol(t, k - 1, ")") {
            depth += 1;
        } else if is_symbol(t, k - 1, "(") {
            if depth == 0 {
                return false;
            }
            depth -= 1;
        } else if depth == 0 {
            if is_word(t, k - 1, "CREATE") && is_leading_to_table(t, k) {
                return true;
            }
            if is_query(t, k - 1) {
                return false;
            }
        }
        k -= 1;
    }
    false
}

fn is_auto_increment(t: &Vec<&SqlToken>, i: usize) -> (r: bool)
    requires
        i < t@.len(),
    ensures
        r == auto_increment_at(ref_models(t@), i as int),
{
    assert(t.len() == t@.len());
    is_word(t, i, "AUTO_INCREMENT") && (is_over_u32(t, i + 1) || (is_symbol(t, i + 1, "=")
        && is_over_u32(t, i + 2))) && is_in_table_options(t, i)
}

fn is_repetition(t: &Vec<&SqlToken>, i: usize) -> (r: bool)
    requires
        i < t@.len(),
    ensures
        r == repetition_at(ref_models(t@), i as int),
{
    assert(t.len() == t@.len());
    if !is_symbol(t, i, "{") {
        return false;
    }
    let exactly = is_over_u32(t, i + 1) && is_symbol(t, i + 2, "}");
    let at_least = is_over_u32(t, i + 1) && is_symbol(t, i + 2, ",") && is_symbol(t, i + 3, "}");
    let at_most = is_symbol(t, i + 1, ",") && is_over_u32(t, i + 2) && is_symbol(t, i + 3, "}");
    let between = is_number(t, i + 1) && is_symbol(t, i + 2, ",") && is_number(t, i + 3)
        && is_symbol(t, i + 4, "}") && (is_over_u32(t, i + 1) || is_over_u32(t, i + 3));
    (exactly || at_least || at_most || between) && is_behind(t, i, "MATCH_RECOGNIZE")
}

fn is_in_distinct_on(t: &Vec<&SqlToken>, i: usize) -> (r: bool)
    requires
        i <= t@.len(),
    ensures
        r == in_distinct_on(ref_models(t@), i as int, 0),
{
    let ghost all = ref_models(t@);
    let mut k: usize = i;
    let mut depth: usize = 0;
    while k > 0
        invariant
            k + depth <= i <= t@.len(),
            all == ref_models(t@),
            in_distinct_on(all, i as int, 0) == in_distinct_on(all, k as int, depth as nat),
        decreases k,
    {
        if is_symbol(t, k - 1, ")") {
            depth += 1;
        } else if is_symbol(t, k - 1, "(") {
            if depth == 0 {
                return k >= 4 && is_word(t, k - 2, "ON") && is_word(t, k - 3, "DISTINCT")
                    && is_word(t, k - 4, "SELECT");
            }
            depth -= 1;
        }
        k -= 1;
    }
    false
}

fn is_top(t: &Vec<&SqlToken>, i: usize) -> (r: bool)
    requires
        i < t@.len(),
    ensures
        r == top_at(ref_models(t@), i as int),
{
    assert(t.len() == t@.len());
    if i == 0 || !is_word(t, i, "TOP") || !is_over_u64(t, i + 1) {
        return false;
    }
    is_word(t, i - 1, "SELECT") || ((is_word(t, i - 1, "ALL") || is_word(t, i - 1, "DISTINCT"))
        && i >= 2 && is_word(t, i - 2, "SELECT")) || (is_symbol(t, i - 1, ")")
        && is_in_distinct_on(t, i - 1))
}

/// Whether the parser may give up on the tokens by a panic.
pub fn tokens_may_panic(tokens: &Vec<SqlToken>) -> (r: bool)
    ensures
        r == may_panic(token_models(tokens@)),
{
    let t = solid_tokens(tokens);
    let ghost all = ref_models(t@);
    let mut i: usize = 0;
    while i < t.len()
        invariant
            i <= t@.len(),
            all == ref_models(t@),
            all == solid(token_models(tokens@)),
            forall|k: int| 0 <= k < i ==> !#[trigger] granted_at(all, k),
            forall|k: int| 0 <= k < i ==> !#[trigger] channel_at(all, k),
            forall|k: int| 0 <= k < i ==> !#[trigger] auto_increment_at(all, k),
            forall|k: int| 0 <= k < i ==> !#[trigger] repetition_at(all, k),
            forall|k: int| 0 <= k < i ==> !#[trigger] top_at(all, k),
        decreases t@.len() - i,
    {
        if is_granted(&t, i) || is_relay_channel(&t, i) || is_auto_increment(&t, i)
            || is_repetition(&t, i) || is_top(&t, i) {
            return true;
        }
        i += 1;
    }
    false
}

/// Whether the parser takes a text without a panic.
pub fn can_parse(sql: &str) -> (r: bool)
    ensures
        r == parseable(sql@),
{
    match tokenize(sql) {
        Some(tokens) => !tokens_may_panic(&tokens),
        None => true,
    }
}

/// A condition with its parts as `sqlparser` holds them.
enum ConditionNode<'a> {
    Binary(
        &'a sqlparser::ast::Expr,
        &'a sqlparser::ast::BinaryOperator,
        &'a sqlparser::ast::Expr,
    ),
    Column(Vec<String>),
    Number(String),
    Quoted(String),
    Other,
}

/// The body of a query with its parts as `sqlparser` holds them.
enum SetNode<'a> {
    Select(&'a Vec<sqlparser::ast::TableWithJoins>, Option<&'a sqlparser::ast::Expr>),
    Nested(&'a sqlparser::ast::Query),
    Pair(&'a sqlparser::ast::SetExpr, &'a sqlparser::ast::SetExpr),
    Other,
}

/// A single source of rows with its parts as `sqlparser` holds them.
enum FactorNode<'a> {
    Named(Vec<String>),
    Derived(&'a sqlparser::ast::Query),
    Nested(&'a sqlparser::ast::TableWithJoins),
    Other,
}

/// `sqlparser::parser::Parser::parse_sql` with the generic dialect: the statements of a
/// text, or the text of the error. The result is a function of the text. The parser panics
/// on some texts, which are left out.
#[verifier::external_body]
fn parse_sql(sql: &str) -> (r: Result<Vec<sqlparser::ast::Statement>, String>)
    requires
        parseable(sql@),
    ensures
        match r {
            Ok(v) => parsed_sql(sql@) is Ok && v@.map_values(
                |s: sqlparser::ast::Statement| statement_model(s),
            ) == parsed_sql(sql@)->Ok_0,
            Err(e) => parsed_sql(sql@) is Err && e@ == parsed_sql(sql@)->Err_0,
        },
{
    let dialect = sqlparser::dialect::GenericDialect {};
    sqlparser::parser::Parser::parse_sql(&dialect, sql).map_err(|e| e.to_string())
}

/// The query of a `sqlparser::ast::Statement`, where it is one.
#[verifier::external_body]
fn statement_query<'a>(s: &'a sqlparser::ast::Statement) -> (r: Option<&'a sqlparser::ast::Query>)
    ensures
        match r {
            Some(q) => statement_model(*s) == StatementModel::Select(query_model(*q)),
            None => statement_model(*s) == StatementModel::Other,
        },
{
    match s {
        sqlparser::ast::Statement::Query(q) => Some(q),
        _ => None,
    }
}

/// The field `with` of a `sqlparser::ast::Query`: the names and the queries of its common
/// table expressions.
#[verifier::external_body]
fn query_ctes<'a>(q: &'a sqlparser::ast::Query) -> (r: Vec<(String, &'a sqlparser::ast::Query)>)
    ensures
        r@.map_values(|c: (String, &sqlparser::ast::Query)| (c.0@, query_model(*c.1)))
            == query_model(*q).ctes,
{
    match &q.with {
        Some(w) => w.cte_tables.iter().map(|c| (c.alias.name.value.clone(), &*c.query)).collect(),
        None => Vec::new(),
    }
}

/// The field `body` of a `sqlparser::ast::Query`.
#[verifier::external_body]
fn query_body<'a>(q: &'a sqlparser::ast::Query) -> (r: &'a sqlparser::ast::SetExpr)
    ensures
        set_model(*r) == query_model(*q).body,
{
    &q.body
}

/// The variant of a `sqlparser::ast::SetExpr`, with the fields `from` and `selection` of a
/// `Select`, the query of a `Query`, and the two sides of a `SetOperation`.
#[verifier::external_body]
fn set_node<'a>(s: &'a sqlparser::ast::SetExpr) -> (r: SetNode<'a>)
    ensures
        match r {
            SetNode::Select(from, selection) => set_model(*s) == SetModel::Select(
                from@.map_values(|t: sqlparser::ast::TableWithJoins| source_model(t)),
                match selection {
                    Some(e) => Some(condition_model(*e)),
                    None => None,
                },
            ),
            SetNode::Nested(q) => set_model(*s) == SetModel::Nested(Box::new(query_model(*q))),
            SetNode::Pair(a, b) => set_model(*s) == SetModel::Pair(
                Box::new(set_model(*a)),
                Box::new(set_model(*b)),
            ),
            SetNode::Other => set_model(*s) == SetModel::Other,
        },
{
    match s {
        sqlparser::ast::SetExpr::Select(x) => SetNode::Select(&x.from, x.selection.as_ref()),
        sqlparser::ast::SetExpr::Query(q) => SetNode::Nested(q),
        sqlparser::ast::SetExpr::SetOperation { left, right, .. } => SetNode::Pair(left, right),
        _ => SetNode::Other,
    }
}

/// The fields of a `sqlparser::ast::TableWithJoins`: its relation, and the relations that
/// are joined to it.
#[verifier::external_body]
fn source_parts<'a>(s: &'a sqlparser::ast::TableWithJoins) -> (r: (
    &'a sqlparser::ast::TableFactor,
    Vec<&'a sqlparser::ast::TableFactor>,
))
    ensures
        factor_model(*r.0) == source_model(*s).first,
        r.1@.map_values(|f: &sqlparser::ast::TableFactor| factor_model(*f)) == source_model(
            *s,
        ).joined,
{
    (&s.relation, s.joins.iter().map(|j| &j.relation).collect())
}

/// The variant of a `sqlparser::ast::TableFactor`, with the parts of the name of a `Table`,
/// the query of a `Derived` and the source of a `NestedJoin`.
#[verifier::external_body]
fn factor_node<'a>(f: &'a sqlparser::ast::TableFactor) -> (r: FactorNode<'a>)
    ensures
        match r {
            FactorNode::Named(parts) => factor_model(*f) == FactorModel::Named(
                text::views(parts@),
            ),
            FactorNode::Derived(q) => factor_model(*f) == FactorModel::Derived(
                Box::new(query_model(*q)),
            ),
            FactorNode::Nested(s) => factor_model(*f) == FactorModel::Nested(
                Box::new(source_model(*s)),
            ),
            FactorNode::Other => factor_model(*f) == FactorModel::Other,
        },
{
    match f {
        TableFactor::Table { name, .. } => {
            FactorNode::Named(name.0.iter().map(|i| i.value.clone()).collect())
        },
        TableFactor::Derived { subquery, .. } => FactorNode::Derived(subquery),
        TableFactor::NestedJoin { table_with_joins, .. } => FactorNode::Nested(table_with_joins),
        _ => FactorNode::Other,
    }
}

/// The variant of a `sqlparser::ast::BinaryOperator`.
#[verifier::external_body]
fn operator_node(op: &sqlparser::ast::BinaryOperator) -> (r: Operator)
    ensures
        r == operator_model(*op),
{
    match op {
        sqlparser::ast::BinaryOperator::And => Operator::And,
        sqlparser::ast::BinaryOperator::Or => Operator::Or,
        sqlparser::ast::BinaryOperator::Gt => Operator::Gt,
        sqlparser::ast::BinaryOperator::GtEq => Operator::GtEq,
        sqlparser::ast::BinaryOperator::Lt => Operator::Lt,
        sqlparser::ast::BinaryOperator::LtEq => Operator::LtEq,
        _ => Operator::Other,
    }
}

/// The variant of a `sqlparser::ast::Expr`, with the parts of a `BinaryOp`, the names of an
/// `Identifier` or a `CompoundIdentifier`, and the text of a number or of a quoted string.
#[verifier::external_body]
fn condition_node<'a>(e: &'a sqlparser::ast::Expr) -> (r: ConditionNode<'a>)
    ensures
        match r {
            ConditionNode::Binary(left, op, right) => condition_model(*e)
                == ConditionModel::Binary(
                Box::new(condition_model(*left)),
                operator_model(*op),
                Box::new(condition_model(*right)),
            ),
            ConditionNode::Column(parts) => condition_model(*e) == ConditionModel::Column(
                text::views(parts@),
            ),
            ConditionNode::Number(s) => condition_model(*e) == ConditionModel::Number(s@),
            ConditionNode::Quoted(s) => condition_model(*e) == ConditionModel::Quoted(s@),
            ConditionNode::Other => condition_model(*e) == ConditionModel::Other,
        },
{
    match e {
        Expr::BinaryOp { left, op, right } => ConditionNode::Binary(left, op, right),
        Expr::Identifier(i) => ConditionNode::Column(vec![i.value.clone()]),
        Expr::CompoundIdentifier(p) => {
            ConditionNode::Column(p.iter().map(|i| i.value.clone()).collect())
        },
        Expr::Value(Value::Number(s, _)) => ConditionNode::Number(s.clone()),
        Expr::Value(Value::SingleQuotedString(s)) => ConditionNode::Quoted(s.clone()),
        Expr::Value(Value::DoubleQuotedString(s)) => ConditionNode::Quoted(s.clone()),
        _ => ConditionNode::Other,
    }
}

fn condition_tree(e: &sqlparser::ast::Expr) -> (r: Condition)
    ensures
        r@ == condition_model(*e),
    decreases condition_model(*e),
{
    let ghost m = condition_model(*e);
    match condition_node(e) {
        ConditionNode::Binary(left, op, right) => {
            assert(decreases_to!(m => *m->Binary_0));
            assert(decreases_to!(m => *m->Binary_2));
            let left = condition_tree(left);
            let op = operator_node(op);
            let right = condition_tree(right);
            Condition::Binary(Box::new(left), op, Box::new(right))
        },
        ConditionNode::Column(parts) => Condition::Column(parts),
        ConditionNode::Number(s) => Condition::Number(s),
        ConditionNode::Quoted(s) => Condition::Quoted(s),
        ConditionNode::Other => Condition::Other,
    }
}

fn query_tree(q: &sqlparser::ast::Query) -> (r: QueryTree)
    ensures
        r@ == query_model(*q),
    decreases query_model(*q),
{
    let ghost m = query_model(*q);
    let nodes = query_ctes(q);
    let ghost models = nodes@.map_values(
        |c: (String, &sqlparser::ast::Query)| (c.0@, query_model(*c.1)),
    );
    let mut ctes: Vec<(String, QueryTree)> = Vec::new();
    let mut i: usize = 0;
    while i < nodes.len()
        invariant
            i <= nodes@.len(),
            m == query_model(*q),
            models == m.ctes,
            models == nodes@.map_values(
                |c: (String, &sqlparser::ast::Query)| (c.0@, query_model(*c.1)),
            ),
            ctes@.len() == i,
            forall|k: int|
                0 <= k < i ==> ((#[trigger] ctes@[k]).0@, ctes@[k].1@) == models[k],
        decreases nodes@.len() - i,
    {
        assert(models[i as int] == (nodes@[i as int].0@, query_model(*nodes@[i as int].1)));
        assert(decreases_to!(m => m.ctes[i as int].1));
        let name = nodes[i].0.clone();
        let tree = query_tree(nodes[i].1);
        ctes.push((name, tree));
        i += 1;
    }
    let body = set_tree(query_body(q));
    let r = QueryTree { ctes, body };
    assert(r@.ctes =~= m.ctes);
    r
}

fn set_tree(s: &sqlparser::ast::SetExpr) -> (r: SetTree)
    ensures
        r@ == set_model(*s),
    decreases set_model(*s),
{
    let ghost m = set_model(*s);
    match set_node(s) {
        SetNode::Select(nodes, selection) => {
            let ghost models = nodes@.map_values(
                |t: sqlparser::ast::TableWithJoins| source_model(t),
            );
            let mut from: Vec<SourceTree> = Vec::new();
            let mut i: usize = 0;
            while i < nodes.len()
                invariant
                    i <= nodes@.len(),
                    m == set_model(*s),
                    m is Select,
                    models == m->Select_0,
                    models == nodes@.map_values(
                        |t: sqlparser::ast::TableWithJoins| source_model(t),
                    ),
                    from@.len() == i,
                    forall|k: int| 0 <= k < i ==> (#[trigger] from@[k])@ == models[k],
                decreases nodes@.len() - i,
            {
                assert(models[i as int] == source_model(nodes@[i as int]));
                assert(decreases_to!(m => m->Select_0[i as int]));
                let tree = source_tree(&nodes[i]);
                from.push(tree);
                i += 1;
            }
            let selection = match selection {
                Some(e) => Some(condition_tree(e)),
                None => None,
            };
            let r = SetTree::Select(from, selection);
            assert(r@->Select_0 =~= models);
            r
        },
        SetNode::Nested(q) => {
            assert(decreases_to!(m => *m->Nested_0));
            SetTree::Nested(Box::new(query_tree(q)))
        },
        SetNode::Pair(a, b) => {
            assert(decreases_to!(m => *m->Pair_0));
            assert(decreases_to!(m => *m->Pair_1));
            let a = set_tree(a);
            let b = set_tree(b);
            SetTree::Pair(Box::new(a), Box::new(b))
        },
        SetNode::Other => SetTree::Other,
    }
}

fn source_tree(s: &sqlparser::ast::TableWithJoins) -> (r: SourceTree)
    ensures
        r@ == source_model(*s),
    decreases source_model(*s),
{
    let ghost m = source_model(*s);
    let (relation, nodes) = source_parts(s);
    let ghost models = nodes@.map_values(|f: &sqlparser::ast::TableFactor| factor_model(*f));
    let first = factor_tree(relation);
    let mut joined: Vec<FactorTree> = Vec::new();
    let mut i: usize = 0;
    while i < nodes.len()
        invariant
            i <= nodes@.len(),
            m == source_model(*s),
            models == m.joined,
            models == nodes@.map_values(
                |f: &sqlparser::ast::TableFactor| factor_model(*f),
            ),
            joined@.len() == i,
            forall|k: int| 0 <= k < i ==> (#[trigger] joined@[k])@ == models[k],
        decreases nodes@.len() - i,
    {
        assert(models[i as int] == factor_model(*nodes@[i as int]));
        assert(decreases_to!(m => m.joined[i as int]));
        let tree = factor_tree(nodes[i]);
        joined.push(tree);
        i += 1;
    }
    let r = SourceTree { first, joined };
    assert(r@.joined =~= m.joined);
    r
}

fn factor_tree(f: &sqlparser::ast::TableFactor) -> (r: FactorTree)
    ensures
        r@ == factor_model(*f),
    decreases factor_model(*f),
{
    let ghost m = factor_model(*f);
    match factor_node(f) {
        FactorNode::Named(parts) => FactorTree::Named(parts),
        FactorNode::Derived(q) => {
            assert(decreases_to!(m => *m->Derived_0));
            FactorTree::Derived(Box::new(query_tree(q)))
        },
        FactorNode::Nested(s) => {
            assert(decreases_to!(m => *m->Nested_0));
            FactorTree::Nested(Box::new(source_tree(s)))
        },
        FactorNode::Other => FactorTree::Other,
    }
}

/// The statements of a SQL text, or why it could not be read.
pub fn parse_statements(sql: &str) -> (r: Result<Vec<StatementTree>, String>)
    requires
        parseable(sql@),
    ensures
        match r {
            Ok(v) => parsed_sql(sql@) is Ok && statement_models(v@) == parsed_sql(sql@)->Ok_0,
            Err(e) => parsed_sql(sql@) is Err && e@ == parsed_sql(sql@)->Err_0,
        },
{
    let nodes = match parse_sql(sql) {
        Ok(v) => v,
        Err(e) => {
            return Err(e);
        },
    };
    let ghost models = nodes@.map_values(|s: sqlparser::ast::Statement| statement_model(s));
    let mut r: Vec<StatementTree> = Vec::new();
    let mut i: usize = 0;
    while i < nodes.len()
        invariant
            i <= nodes@.len(),
            models == nodes@.map_values(|s: sqlparser::ast::Statement| statement_model(s)),
            r@.len() == i,
            forall|k: int| 0 <= k < i ==> (#[trigger] r@[k])@ == models[k],
        decreases nodes@.len() - i,
    {
        assert(models[i as int] == statement_model(nodes@[i as int]));
        let tree = match statement_query(&nodes[i]) {
            Some(q) => StatementTree::Select(query_tree(q)),
            None => StatementTree::Other,
        };
        r.push(tree);
        i += 1;
    }
    assert(statement_models(r@) =~= models);
    Ok(r)
}

} // verus!
