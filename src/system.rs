//! Columns, polynomial expressions over column queries, gates, and the
//! constraint-system builder that allocates columns and collects gates.
use vstd::prelude::*;

verus! {

#[derive(Clone, Copy, PartialEq, Eq, Structural, Debug)]
pub enum ColumnKind {
    Advice,
    Fixed,
    Instance,
}

/// A column of the table: its kind and its index among the columns of that kind.
#[derive(Clone, Copy, PartialEq, Eq, Structural, Debug)]
pub struct Column {
    pub kind: ColumnKind,
    pub index: usize,
}

/// A polynomial over column queries; a query reads a column at a row offset
/// (its rotation) from the row under evaluation, wrapping around the table.
#[derive(Debug)]
pub enum Expr {
    Constant(u64),
    Query(Column, i32),
    Negated(Box<Expr>),
    Sum(Box<Expr>, Box<Expr>),
    Product(Box<Expr>, Box<Expr>),
}

impl Expr {
    pub fn query(column: Column, rotation: i32) -> (r: Expr)
        ensures
            r == Expr::Query(column, rotation),
    {
        Expr::Query(column, rotation)
    }

    pub fn constant(value: u64) -> (r: Expr)
        ensures
            r == Expr::Constant(value),
    {
        Expr::Constant(value)
    }

    pub fn neg(self) -> (r: Expr)
        ensures
            r == Expr::Negated(Box::new(self)),
    {
        Expr::Negated(Box::new(self))
    }

    pub fn add(self, o: Expr) -> (r: Expr)
        ensures
            r == Expr::Sum(Box::new(self), Box::new(o)),
    {
        Expr::Sum(Box::new(self), Box::new(o))
    }

    /// `self - o`, written as `self + (-o)`.
    pub fn sub(self, o: Expr) -> (r: Expr)
        ensures
            r == Expr::Sum(Box::new(self), Box::new(Expr::Negated(Box::new(o)))),
    {
        Expr::Sum(Box::new(self), Box::new(Expr::Negated(Box::new(o))))
    }

    pub fn mul(self, o: Expr) -> (r: Expr)
        ensures
            r == Expr::Product(Box::new(self), Box::new(o)),
    {
        Expr::Product(Box::new(self), Box::new(o))
    }

    /// Every query of the expression reads the row under evaluation itself.
    pub open spec fn current_row_only(self) -> bool
        decreases self,
    {
        match self {
            Expr::Constant(_) => true,
            Expr::Query(_, rot) => rot == 0,
            Expr::Negated(a) => a.current_row_only(),
            Expr::Sum(a, b) => a.current_row_only() && b.current_row_only(),
            Expr::Product(a, b) => a.current_row_only() && b.current_row_only(),
        }
    }
}

/// A named set of polynomials that must all vanish at every row.
#[derive(Debug)]
pub struct Gate {
    pub name: String,
    pub polys: Vec<Expr>,
}

/// The shape of a circuit: how many columns of each kind, which of them take
/// part in equality constraints, and its gates.
#[derive(Debug)]
pub struct ConstraintSystem {
    pub num_advice: usize,
    pub num_fixed: usize,
    pub num_instance: usize,
    pub equality: Vec<Column>,
    pub gates: Vec<Gate>,
}

/// The column has been allocated in `cs`.
pub open spec fn has_column(cs: &ConstraintSystem, c: Column) -> bool {
    match c.kind {
        ColumnKind::Advice => c.index < cs.num_advice,
        ColumnKind::Fixed => c.index < cs.num_fixed,
        ColumnKind::Instance => c.index < cs.num_instance,
    }
}

pub open spec fn equality_enabled(cs: &ConstraintSystem, c: Column) -> bool {
    cs.equality@.contains(c)
}

#[derive(Clone, Copy, PartialEq, Eq, Structural, Debug)]
pub enum ConfigError {
    /// The column was never allocated in this constraint system.
    UnknownColumn,
    /// No more columns of this kind can be allocated.
    TooManyColumns,
}

impl ConstraintSystem {
    pub fn new() -> (r: ConstraintSystem)
        ensures
            r.num_advice == 0,
            r.num_fixed == 0,
            r.num_instance == 0,
            r.equality@.len() == 0,
            r.gates@.len() == 0,
    {
        ConstraintSystem {
            num_advice: 0,
            num_fixed: 0,
            num_instance: 0,
            equality: Vec::new(),
            gates: Vec::new(),
        }
    }

    pub fn advice_column(&mut self) -> (r: Result<Column, ConfigError>)
        ensures
            old(self).num_advice < usize::MAX ==> r == Ok::<Column, ConfigError>(
                Column { kind: ColumnKind::Advice, index: old(self).num_advice },
            ) && final(self).num_advice == old(self).num_advice + 1,
            old(self).num_advice == usize::MAX ==> r == Err::<Column, ConfigError>(
                ConfigError::TooManyColumns,
            ) && final(self).num_advice == old(self).num_advice,
            final(self).num_fixed == old(self).num_fixed,
            final(self).num_instance == old(self).num_instance,
            final(self).equality == old(self).equality,
            final(self).gates == old(self).gates,
    {
        if self.num_advice == usize::MAX {
            return Err(ConfigError::TooManyColumns);
        }
        let c = Column { kind: ColumnKind::Advice, index: self.num_advice };
        self.num_advice = self.num_advice + 1;
        Ok(c)
    }

    pub fn fixed_column(&mut self) -> (r: Result<Column, ConfigError>)
        ensures
            old(self).num_fixed < usize::MAX ==> r == Ok::<Column, ConfigError>(
                Column { kind: ColumnKind::Fixed, index: old(self).num_fixed },
            ) && final(self).num_fixed == old(self).num_fixed + 1,
            old(self).num_fixed == usize::MAX ==> r == Err::<Column, ConfigError>(
                ConfigError::TooManyColumns,
            ) && final(self).num_fixed == old(self).num_fixed,
            final(self).num_advice == old(self).num_advice,
            final(self).num_instance == old(self).num_instance,
            final(self).equality == old(self).equality,
            final(self).gates == old(self).gates,
    {
        if self.num_fixed == usize::MAX {
            return Err(ConfigError::TooManyColumns);
        }
        let c = Column { kind: ColumnKind::Fixed, index: self.num_fixed };
        self.num_fixed = self.num_fixed + 1;
        Ok(c)
    }

    pub fn instance_column(&mut self) -> (r: Result<Column, ConfigError>)
        ensures
            old(self).num_instance < usize::MAX ==> r == Ok::<Column, ConfigError>(
                Column { kind: ColumnKind::Instance, index: old(self).num_instance },
            ) && final(self).num_instance == old(self).num_instance + 1,
            old(self).num_instance == usize::MAX ==> r == Err::<Column, ConfigError>(
                ConfigError::TooManyColumns,
            ) && final(self).num_instance == old(self).num_instance,
            final(self).num_advice == old(self).num_advice,
            final(self).num_fixed == old(self).num_fixed,
            final(self).equality == old(self).equality,
            final(self).gates == old(self).gates,
    {
        if self.num_instance == usize::MAX {
            return Err(ConfigError::TooManyColumns);
        }
        let c = Column { kind: ColumnKind::Instance, index: self.num_instance };
        self.num_instance = self.num_instance + 1;
        Ok(c)
    }

    /// Lets `column` take part in equality constraints.
    pub fn enable_equality(&mut self, column: Column) -> (r: Result<(), ConfigError>)
        ensures
            r is Ok <==> has_column(old(self), column),
            r is Ok ==> final(self).equality@ == old(self).equality@.push(column),
            r is Err ==> final(self).equality == old(self).equality,
            r is Err ==> r == Err::<(), ConfigError>(ConfigError::UnknownColumn),
            final(self).num_advice == old(self).num_advice,
            final(self).num_fixed == old(self).num_fixed,
            final(self).num_instance == old(self).num_instance,
            final(self).gates == old(self).gates,
    {
        let known = match column.kind {
            ColumnKind::Advice => column.index < self.num_advice,
            ColumnKind::Fixed => column.index < self.num_fixed,
            ColumnKind::Instance => column.index < self.num_instance,
        };
        if !known {
            return Err(ConfigError::UnknownColumn);
        }
        self.equality.push(column);
        Ok(())
    }

    /// Appends a gate made of `polys`.
    pub fn create_gate(&mut self, name: String, polys: Vec<Expr>)
        ensures
            final(self).gates@.len() == old(self).gates@.len() + 1,
            forall|i: int|
                0 <= i < old(self).gates@.len() ==> final(self).gates@[i] == old(self).gates@[i],
            final(self).gates@.last().name@ == name@,
            final(self).gates@.last().polys@ == polys@,
            final(self).num_advice == old(self).num_advice,
            final(self).num_fixed == old(self).num_fixed,
            final(self).num_instance == old(self).num_instance,
            final(self).equality == old(self).equality,
    {
        self.gates.push(Gate { name, polys });
    }
}

} // verus!
