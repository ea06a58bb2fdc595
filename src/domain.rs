use vstd::prelude::*;

verus! {

/// The type of a schema column.
#[derive(Clone, Copy, Debug, PartialEq, Eq, Structural)]
pub enum ColumnType {
    Number,
    Boolean,
    Text,
    Time,
    Others,
}

/// A relational schema: parallel arrays over the columns, plus the table list.
#[derive(Debug)]
pub struct SqlSchema {
    pub db_id: Vec<u8>,
    pub table_names: Vec<Vec<u8>>,
    pub column_names: Vec<Vec<u8>>,
    pub column_types: Vec<ColumnType>,
    pub column_to_table: Vec<usize>,
    pub table_to_columns: Vec<(Vec<u8>, Vec<usize>)>,
    pub foreign_keys: Vec<(usize, usize)>,
    pub primary_keys: Vec<usize>,
}

/// Mathematical model of a schema.
pub ghost struct SchemaView {
    pub db_id: Seq<u8>,
    pub table_names: Seq<Seq<u8>>,
    pub column_names: Seq<Seq<u8>>,
    pub column_types: Seq<ColumnType>,
    pub column_to_table: Seq<usize>,
    /// each table name with the indices of its columns
    pub table_to_columns: Seq<(Seq<u8>, Seq<usize>)>,
    pub foreign_keys: Seq<(usize, usize)>,
    pub primary_keys: Seq<usize>,
}

/// The model of a table-to-columns list.
pub open spec fn table_map_view(v: Seq<(Vec<u8>, Vec<usize>)>) -> Seq<(Seq<u8>, Seq<usize>)> {
    v.map_values(|x: (Vec<u8>, Vec<usize>)| (x.0@, x.1@))
}

impl View for SqlSchema {
    type V = SchemaView;

    open spec fn view(&self) -> SchemaView {
        SchemaView {
            db_id: self.db_id@,
            table_names: names_view(self.table_names@),
            column_names: names_view(self.column_names@),
            column_types: self.column_types@,
            column_to_table: self.column_to_table@,
            table_to_columns: table_map_view(self.table_to_columns@),
            foreign_keys: self.foreign_keys@,
            primary_keys: self.primary_keys@,
        }
    }
}

impl SchemaView {
    /// Parallel arrays agree in length and every index is in range.
    pub open spec fn wf(self) -> bool {
        &&& self.column_types.len() == self.column_names.len()
        &&& self.column_to_table.len() == self.column_names.len()
        &&& forall|i: int|
            0 <= i < self.column_to_table.len() ==> (#[trigger] self.column_to_table[i])
                < self.table_names.len()
        &&& forall|i: int|
            0 <= i < self.foreign_keys.len() ==> (#[trigger] self.foreign_keys[i]).0
                < self.column_names.len() && self.foreign_keys[i].1 < self.column_names.len()
        &&& forall|i: int|
            0 <= i < self.primary_keys.len() ==> (#[trigger] self.primary_keys[i])
                < self.column_names.len()
    }
}

impl SqlSchema {
    pub open spec fn wf(&self) -> bool {
        self@.wf()
    }

    pub fn new(
        db_id: Vec<u8>,
        table_names: Vec<Vec<u8>>,
        column_names: Vec<Vec<u8>>,
        column_types: Vec<ColumnType>,
        column_to_table: Vec<usize>,
        table_to_columns: Vec<(Vec<u8>, Vec<usize>)>,
        foreign_keys: Vec<(usize, usize)>,
        primary_keys: Vec<usize>,
    ) -> (r: Self)
        ensures
            r.db_id@ == db_id@,
            names_view(r.table_names@) == names_view(table_names@),
            names_view(r.column_names@) == names_view(column_names@),
            r.column_types@ == column_types@,
            r.column_to_table@ == column_to_table@,
            table_map_view(r.table_to_columns@) == table_map_view(table_to_columns@),
            r.foreign_keys@ == foreign_keys@,
            r.primary_keys@ == primary_keys@,
    {
        SqlSchema {
            db_id,
            table_names,
            column_names,
            column_types,
            column_to_table,
            table_to_columns,
            foreign_keys,
            primary_keys,
        }
    }

    /// Checks the schema's invariant on a value built from outside data.
    pub fn is_well_formed(&self) -> (r: bool)
        ensures
            r == self.wf(),
    {
        let nc = self.column_names.len();
        let nt = self.table_names.len();
        if self.column_types.len() != nc || self.column_to_table.len() != nc {
            return false;
        }
        let mut i: usize = 0;
        while i < self.column_to_table.len()
            invariant
                i <= self.column_to_table@.len(),
                forall|j: int| 0 <= j < i ==> self.column_to_table@[j] < nt,
                nt == self@.table_names.len(),
            decreases self.column_to_table@.len() - i,
        {
            if self.column_to_table[i] >= nt {
                return false;
            }
            i += 1;
        }
        let mut i: usize = 0;
        while i < self.foreign_keys.len()
            invariant
                i <= self.foreign_keys@.len(),
                nc == self@.column_names.len(),
                forall|j: int|
                    0 <= j < i ==> self.foreign_keys@[j].0 < nc && self.foreign_keys@[j].1 < nc,
            decreases self.foreign_keys@.len() - i,
        {
            let (a, b) = self.foreign_keys[i];
            if a >= nc || b >= nc {
                assert(self@.foreign_keys[i as int] == (a, b));
                return false;
            }
            i += 1;
        }
        let mut i: usize = 0;
        while i < self.primary_keys.len()
            invariant
                i <= self.primary_keys@.len(),
                nc == self@.column_names.len(),
                forall|j: int| 0 <= j < i ==> self.primary_keys@[j] < nc,
            decreases self.primary_keys@.len() - i,
        {
            if self.primary_keys[i] >= nc {
                assert(self@.primary_keys[i as int] == self.primary_keys[i as int]);
                return false;
            }
            i += 1;
        }
        true
    }

    /// A deep copy with the same model.
    pub fn duplicate(&self) -> (r: Self)
        ensures
            r@ == self@,
    {
        let mut ttc: Vec<(Vec<u8>, Vec<usize>)> = Vec::new();
        let mut i: usize = 0;
        while i < self.table_to_columns.len()
            invariant
                i <= self.table_to_columns@.len(),
                ttc@.len() == i,
                forall|j: int| 0 <= j < i ==> (#[trigger] ttc@[j]).0@ == self.table_to_columns@[j].0@
                    && ttc@[j].1@ == self.table_to_columns@[j].1@,
            decreases self.table_to_columns@.len() - i,
        {
            let (n, cs) = &self.table_to_columns[i];
            ttc.push((copy_bytes(n.as_slice()), copy_usizes(cs.as_slice())));
            i += 1;
        }
        assert(table_map_view(ttc@) =~= table_map_view(self.table_to_columns@));
        SqlSchema {
            db_id: copy_bytes(self.db_id.as_slice()),
            table_names: copy_names(&self.table_names),
            column_names: copy_names(&self.column_names),
            column_types: copy_types(&self.column_types),
            column_to_table: copy_usizes(self.column_to_table.as_slice()),
            table_to_columns: ttc,
            foreign_keys: copy_pairs(&self.foreign_keys),
            primary_keys: copy_usizes(self.primary_keys.as_slice()),
        }
    }
}

/// Byte-for-byte copy.
pub fn copy_bytes(b: &[u8]) -> (r: Vec<u8>)
    ensures
        r@ == b@,
{
    let mut r: Vec<u8> = Vec::new();
    let mut i: usize = 0;
    while i < b.len()
        invariant
            i <= b@.len(),
            r@ == b@.subrange(0, i as int),
        decreases b@.len() - i,
    {
        r.push(b[i]);
        i += 1;
    }
    assert(r@ =~= b@);
    r
}

pub fn copy_usizes(b: &[usize]) -> (r: Vec<usize>)
    ensures
        r@ == b@,
{
    let mut r: Vec<usize> = Vec::new();
    let mut i: usize = 0;
    while i < b.len()
        invariant
            i <= b@.len(),
            r@ == b@.subrange(0, i as int),
        decreases b@.len() - i,
    {
        r.push(b[i]);
        i += 1;
    }
    assert(r@ =~= b@);
    r
}

fn copy_pairs(b: &Vec<(usize, usize)>) -> (r: Vec<(usize, usize)>)
    ensures
        r@ == b@,
{
    let mut r: Vec<(usize, usize)> = Vec::new();
    let mut i: usize = 0;
    while i < b.len()
        invariant
            i <= b@.len(),
            r@ == b@.subrange(0, i as int),
        decreases b@.len() - i,
    {
        r.push(b[i]);
        i += 1;
    }
    assert(r@ =~= b@);
    r
}

fn copy_types(b: &Vec<ColumnType>) -> (r: Vec<ColumnType>)
    ensures
        r@ == b@,
{
    let mut r: Vec<ColumnType> = Vec::new();
    let mut i: usize = 0;
    while i < b.len()
        invariant
            i <= b@.len(),
            r@ == b@.subrange(0, i as int),
        decreases b@.len() - i,
    {
        r.push(b[i]);
        i += 1;
    }
    assert(r@ =~= b@);
    r
}

/// The model of a list of names.
pub open spec fn names_view(v: Seq<Vec<u8>>) -> Seq<Seq<u8>> {
    v.map_values(|x: Vec<u8>| x@)
}

/// Deep copy of a list of names.
pub fn copy_names(b: &Vec<Vec<u8>>) -> (r: Vec<Vec<u8>>)
    ensures
        names_view(r@) == names_view(b@),
{
    let mut r: Vec<Vec<u8>> = Vec::new();
    let mut i: usize = 0;
    while i < b.len()
        invariant
            i <= b@.len(),
            r@.len() == i,
            forall|j: int| 0 <= j < i ==> (#[trigger] r@[j])@ == b@[j]@,
        decreases b@.len() - i,
    {
        let c = copy_bytes(b[i].as_slice());
        r.push(c);
        i += 1;
    }
    assert(names_view(r@) =~= names_view(b@));
    r
}

/// The key classification of a column, relative to a table.
#[derive(Debug, PartialEq)]
pub enum KeyType {
    PrimaryKey { table: Vec<u8> },
    ForeignKey { table: Vec<u8> },
}

pub ghost enum KeyView {
    Primary(Seq<u8>),
    Foreign(Seq<u8>),
}

impl View for KeyType {
    type V = KeyView;

    open spec fn view(&self) -> KeyView {
        match self {
            KeyType::PrimaryKey { table } => KeyView::Primary(table@),
            KeyType::ForeignKey { table } => KeyView::Foreign(table@),
        }
    }
}

impl KeyType {
    pub fn copy(&self) -> (r: Self)
        ensures
            r@ == self@,
    {
        match self {
            KeyType::PrimaryKey { table } => KeyType::PrimaryKey {
                table: copy_bytes(table.as_slice()),
            },
            KeyType::ForeignKey { table } => KeyType::ForeignKey {
                table: copy_bytes(table.as_slice()),
            },
        }
    }
}

pub open spec fn keys_view(keys: Seq<KeyType>) -> Seq<KeyView> {
    keys.map_values(|k: KeyType| k@)
}

pub fn copy_keys(keys: &[KeyType]) -> (r: Vec<KeyType>)
    ensures
        keys_view(r@) == keys_view(keys@),
{
    let mut r: Vec<KeyType> = Vec::new();
    let mut i: usize = 0;
    while i < keys.len()
        invariant
            i <= keys@.len(),
            r@.len() == i,
            forall|j: int| 0 <= j < i ==> (#[trigger] r@[j])@ == keys@[j]@,
        decreases keys@.len() - i,
    {
        let k = keys[i].copy();
        r.push(k);
        i += 1;
    }
    assert(keys_view(r@) =~= keys_view(keys@));
    r
}

/// The name a dummy column (`1 AS One`) is listed under.
pub open spec fn dummy_name() -> Seq<u8> {
    seq![49u8, 32u8, 65u8, 83u8, 32u8, 79u8, 110u8, 101u8]
}

/// A column of a derived table.
#[derive(Debug, PartialEq)]
pub enum Column {
    Dummy,
    Plain { name: Vec<u8>, typ: ColumnType, keys: Vec<KeyType> },
    Aliased { name: Vec<u8>, typ: ColumnType, keys: Vec<KeyType> },
}

pub ghost enum ColumnView {
    Dummy,
    Plain { name: Seq<u8>, typ: ColumnType, keys: Seq<KeyView> },
    Aliased { name: Seq<u8>, typ: ColumnType, keys: Seq<KeyView> },
}

impl ColumnView {
    pub open spec fn name(self) -> Seq<u8> {
        match self {
            ColumnView::Dummy => dummy_name(),
            ColumnView::Plain { name, .. } => name,
            ColumnView::Aliased { name, .. } => name,
        }
    }

    pub open spec fn typ(self) -> ColumnType {
        match self {
            ColumnView::Dummy => ColumnType::Number,
            ColumnView::Plain { typ, .. } => typ,
            ColumnView::Aliased { typ, .. } => typ,
        }
    }

    pub open spec fn keys(self) -> Seq<KeyView> {
        match self {
            ColumnView::Dummy => Seq::empty(),
            ColumnView::Plain { keys, .. } => keys,
            ColumnView::Aliased { keys, .. } => keys,
        }
    }
}

impl View for Column {
    type V = ColumnView;

    open spec fn view(&self) -> ColumnView {
        match self {
            Column::Dummy => ColumnView::Dummy,
            Column::Plain { name, typ, keys } => ColumnView::Plain {
                name: name@,
                typ: *typ,
                keys: keys_view(keys@),
            },
            Column::Aliased { name, typ, keys } => ColumnView::Aliased {
                name: name@,
                typ: *typ,
                keys: keys_view(keys@),
            },
        }
    }
}

impl Column {
    /// The column's name; a dummy column is named `1 AS One`.
    pub fn name(&self) -> (r: Vec<u8>)
        ensures
            r@ == self@.name(),
    {
        match self {
            Column::Dummy => {
                let r = vec![49u8, 32u8, 65u8, 83u8, 32u8, 79u8, 110u8, 101u8];
                assert(r@ =~= dummy_name());
                r
            },
            Column::Plain { name, .. } => copy_bytes(name.as_slice()),
            Column::Aliased { name, .. } => copy_bytes(name.as_slice()),
        }
    }

    /// The column's type; a dummy column counts as a number.
    pub fn typ(&self) -> (r: ColumnType)
        ensures
            r == self@.typ(),
    {
        match self {
            Column::Dummy => ColumnType::Number,
            Column::Plain { typ, .. } => *typ,
            Column::Aliased { typ, .. } => *typ,
        }
    }

    /// The column's key classifications; a dummy column has none.
    pub fn keys(&self) -> (r: &[KeyType])
        ensures
            keys_view(r@) == self@.keys(),
    {
        match self {
            Column::Dummy => {
                let r: &[KeyType] = &[];
                assert(keys_view(r@) =~= Seq::empty());
                r
            },
            Column::Plain { keys, .. } => keys.as_slice(),
            Column::Aliased { keys, .. } => keys.as_slice(),
        }
    }

    pub fn is_aliased(&self) -> (r: bool)
        ensures
            r == (self@ is Aliased),
    {
        match self {
            Column::Aliased { .. } => true,
            _ => false,
        }
    }

    pub fn copy(&self) -> (r: Self)
        ensures
            r@ == self@,
    {
        match self {
            Column::Dummy => Column::Dummy,
            Column::Plain { name, typ, keys } => Column::Plain {
                name: copy_bytes(name.as_slice()),
                typ: *typ,
                keys: copy_keys(keys.as_slice()),
            },
            Column::Aliased { name, typ, keys } => Column::Aliased {
                name: copy_bytes(name.as_slice()),
                typ: *typ,
                keys: copy_keys(keys.as_slice()),
            },
        }
    }
}

pub open spec fn columns_view(cs: Seq<Column>) -> Seq<ColumnView> {
    cs.map_values(|c: Column| c@)
}

pub open spec fn column_names_of(cs: Seq<ColumnView>) -> Seq<Seq<u8>> {
    cs.map_values(|c: ColumnView| c.name())
}

/// The derived table of a line.
#[derive(Debug, PartialEq)]
pub enum Table {
    Named { name: Vec<u8>, columns: Vec<Column> },
    Indexed { idx: usize, columns: Vec<Column> },
}

impl Table {
    pub open spec fn columns_spec(&self) -> Seq<ColumnView> {
        match self {
            Table::Named { columns, .. } => columns_view(columns@),
            Table::Indexed { columns, .. } => columns_view(columns@),
        }
    }

    pub fn columns(&self) -> (r: &[Column])
        ensures
            columns_view(r@) == self.columns_spec(),
    {
        match self {
            Table::Named { columns, .. } => columns.as_slice(),
            Table::Indexed { columns, .. } => columns.as_slice(),
        }
    }
}

/// The right-hand side (or left-hand column) of a comparison. A number keeps
/// its literal text.
#[derive(Debug, PartialEq)]
pub enum Comparable {
    Number(Vec<u8>),
    Str(Vec<u8>),
    Boolean(bool),
    Null,
    Column(Vec<u8>),
}

/// The model of a comparable.
pub ghost enum CmpView {
    Number(Seq<u8>),
    Str(Seq<u8>),
    Boolean(bool),
    Null,
    Column(Seq<u8>),
}

impl View for Comparable {
    type V = CmpView;

    open spec fn view(&self) -> CmpView {
        match self {
            Comparable::Number(t) => CmpView::Number(t@),
            Comparable::Str(t) => CmpView::Str(t@),
            Comparable::Boolean(b) => CmpView::Boolean(*b),
            Comparable::Null => CmpView::Null,
            Comparable::Column(n) => CmpView::Column(n@),
        }
    }
}

/// A comparison operator.
#[derive(Clone, Copy, Debug, PartialEq, Eq, Structural)]
pub enum CompOp {
    Equal,
    NotEqual,
    GreaterThan,
    GreaterThanOrEqual,
    LessThan,
    LessThanOrEqual,
    Is,
    IsNot,
    Like,
    NotLike,
}

/// A comparison: its operator and its two sides.
#[derive(Debug, PartialEq)]
pub enum Comparison {
    Equal(Comparable, Comparable),
    NotEqual(Comparable, Comparable),
    GreaterThan(Comparable, Comparable),
    GreaterThanOrEqual(Comparable, Comparable),
    LessThan(Comparable, Comparable),
    LessThanOrEqual(Comparable, Comparable),
    Is(Comparable, Comparable),
    IsNot(Comparable, Comparable),
    Like(Comparable, Comparable),
    NotLike(Comparable, Comparable),
}

impl Comparison {
    /// The comparison of `lhs` and `rhs` by `op`.
    pub fn from_op(op: CompOp, lhs: Comparable, rhs: Comparable) -> (r: Comparison)
        ensures
            r == comparison_of(op, lhs, rhs),
    {
        match op {
            CompOp::Equal => Comparison::Equal(lhs, rhs),
            CompOp::NotEqual => Comparison::NotEqual(lhs, rhs),
            CompOp::GreaterThan => Comparison::GreaterThan(lhs, rhs),
            CompOp::GreaterThanOrEqual => Comparison::GreaterThanOrEqual(lhs, rhs),
            CompOp::LessThan => Comparison::LessThan(lhs, rhs),
            CompOp::LessThanOrEqual => Comparison::LessThanOrEqual(lhs, rhs),
            CompOp::Is => Comparison::Is(lhs, rhs),
            CompOp::IsNot => Comparison::IsNot(lhs, rhs),
            CompOp::Like => Comparison::Like(lhs, rhs),
            CompOp::NotLike => Comparison::NotLike(lhs, rhs),
        }
    }
}

pub open spec fn comparison_of(op: CompOp, lhs: Comparable, rhs: Comparable) -> Comparison {
    match op {
        CompOp::Equal => Comparison::Equal(lhs, rhs),
        CompOp::NotEqual => Comparison::NotEqual(lhs, rhs),
        CompOp::GreaterThan => Comparison::GreaterThan(lhs, rhs),
        CompOp::GreaterThanOrEqual => Comparison::GreaterThanOrEqual(lhs, rhs),
        CompOp::LessThan => Comparison::LessThan(lhs, rhs),
        CompOp::LessThanOrEqual => Comparison::LessThanOrEqual(lhs, rhs),
        CompOp::Is => Comparison::Is(lhs, rhs),
        CompOp::IsNot => Comparison::IsNot(lhs, rhs),
        CompOp::Like => Comparison::Like(lhs, rhs),
        CompOp::NotLike => Comparison::NotLike(lhs, rhs),
    }
}

/// The model of a comparison: operator, left side, right side.
pub open spec fn comparison_view(c: Comparison) -> (CompOp, CmpView, CmpView) {
    match c {
        Comparison::Equal(l, r) => (CompOp::Equal, l@, r@),
        Comparison::NotEqual(l, r) => (CompOp::NotEqual, l@, r@),
        Comparison::GreaterThan(l, r) => (CompOp::GreaterThan, l@, r@),
        Comparison::GreaterThanOrEqual(l, r) => (CompOp::GreaterThanOrEqual, l@, r@),
        Comparison::LessThan(l, r) => (CompOp::LessThan, l@, r@),
        Comparison::LessThanOrEqual(l, r) => (CompOp::LessThanOrEqual, l@, r@),
        Comparison::Is(l, r) => (CompOp::Is, l@, r@),
        Comparison::IsNot(l, r) => (CompOp::IsNot, l@, r@),
        Comparison::Like(l, r) => (CompOp::Like, l@, r@),
        Comparison::NotLike(l, r) => (CompOp::NotLike, l@, r@),
    }
}

/// The model of a predicate.
pub ghost enum PredView {
    Single(CompOp, CmpView, CmpView),
    And(Box<PredView>, Box<PredView>),
    Or(Box<PredView>, Box<PredView>),
}

pub open spec fn pred_view(p: Predicate) -> PredView
    decreases p,
{
    match p {
        Predicate::Single { comparison } => {
            let (op, l, r) = comparison_view(comparison);
            PredView::Single(op, l, r)
        },
        Predicate::And { lhs, rhs } => PredView::And(Box::new(pred_view(*lhs)), Box::new(pred_view(*rhs))),
        Predicate::Or { lhs, rhs } => PredView::Or(Box::new(pred_view(*lhs)), Box::new(pred_view(*rhs))),
    }
}

#[derive(Debug, PartialEq)]
pub enum Predicate {
    Single { comparison: Comparison },
    And { lhs: Box<Predicate>, rhs: Box<Predicate> },
    Or { lhs: Box<Predicate>, rhs: Box<Predicate> },
}

#[derive(Debug, PartialEq)]
pub enum ExceptOperator {
    Predicate(Predicate),
    ExceptColumn(Vec<u8>),
}

#[derive(Debug, PartialEq)]
pub enum Operation {
    Aggregate { input: usize, group_by: Vec<Vec<u8>> },
    Except { inputs: Vec<usize>, operator: ExceptOperator, is_distinct: bool },
    Filter { input: usize, predicate: Option<Predicate>, is_distinct: bool },
    Intersect { inputs: Vec<usize>, predicate: Option<Predicate>, is_distinct: bool },
    Join { inputs: Vec<usize>, predicate: Option<Predicate>, is_distinct: bool },
    Scan { table: Vec<u8>, predicate: Option<Predicate>, is_distinct: bool },
    Top { input: usize, rows: usize },
    Sort { input: usize, order_by: Vec<Vec<u8>>, is_distinct: bool },
    TopSort { input: usize, rows: usize, order_by: Vec<Vec<u8>>, with_ties: bool },
    Union { inputs: Vec<usize> },
}

impl Operation {
    /// The line indices the operation reads.
    pub open spec fn inputs_spec(&self) -> Seq<usize> {
        match self {
            Operation::Aggregate { input, .. } => seq![*input],
            Operation::Except { inputs, .. } => inputs@,
            Operation::Filter { input, .. } => seq![*input],
            Operation::Intersect { inputs, .. } => inputs@,
            Operation::Join { inputs, .. } => inputs@,
            Operation::Scan { .. } => Seq::empty(),
            Operation::Top { input, .. } => seq![*input],
            Operation::Sort { input, .. } => seq![*input],
            Operation::TopSort { input, .. } => seq![*input],
            Operation::Union { inputs } => inputs@,
        }
    }
}

/// One parsed line: its index and operation.
#[derive(Debug, PartialEq)]
pub struct Line {
    pub idx: usize,
    pub operation: Operation,
}

/// The aggregate functions.
#[derive(Clone, Copy, Debug, PartialEq, Eq, Structural)]
pub enum Agg {
    Sum,
    Min,
    Max,
    Count,
    Average,
}

impl Agg {
    /// How the function is written in an output: `SUM`, `MIN`, `MAX`,
    /// `COUNT`, `AVG`.
    pub(crate) fn keyword(&self) -> (r: &'static str) {
        match self {
            Agg::Sum => "SUM",
            Agg::Min => "MIN",
            Agg::Max => "MAX",
            Agg::Count => "COUNT",
            Agg::Average => "AVG",
        }
    }

    /// The prefix of the result's name: `Sum_`, `Min_`, `Max_`, `Count_`,
    /// `Avg_`.
    pub(crate) fn result_prefix(&self) -> (r: &'static str) {
        match self {
            Agg::Sum => "Sum_",
            Agg::Min => "Min_",
            Agg::Max => "Max_",
            Agg::Count => "Count_",
            Agg::Average => "Avg_",
        }
    }

    /// All aggregate functions, in the order they are tried.
    pub fn values() -> (r: Vec<Agg>)
        ensures
            r@ == seq![Agg::Sum, Agg::Min, Agg::Max, Agg::Count, Agg::Average],
    {
        let r = vec![Agg::Sum, Agg::Min, Agg::Max, Agg::Count, Agg::Average];
        assert(r@ =~= seq![Agg::Sum, Agg::Min, Agg::Max, Agg::Count, Agg::Average]);
        r
    }
}

} // verus!
