//! Column names, data types and struct schemas.

use vstd::prelude::*;

verus! {

/// The path of a column through nested structs, outermost field first:
/// `add.deletionVector.offset` is the path `["add", "deletionVector", "offset"]`.
#[derive(Debug, PartialEq, Eq)]
pub struct ColumnName {
    pub path: Vec<String>,
}

impl View for ColumnName {
    type V = Seq<Seq<char>>;

    open spec fn view(&self) -> Seq<Seq<char>> {
        self.path@.map_values(|s: String| s@)
    }
}

impl DeepView for ColumnName {
    type V = Seq<Seq<char>>;

    open spec fn deep_view(&self) -> Seq<Seq<char>> {
        self@
    }
}

impl ColumnName {
    pub fn new(path: Vec<String>) -> (r: ColumnName)
        ensures
            r@ == path@.map_values(|s: String| s@),
    {
        ColumnName { path }
    }

    /// The name of a top-level column.
    pub fn of1(a: &str) -> (r: ColumnName)
        ensures
            r@ == seq![a@],
    {
        let mut path: Vec<String> = Vec::new();
        path.push(a.to_owned());
        let r = ColumnName { path };
        assert(r@ =~= seq![a@]);
        r
    }

    /// The name of column `b` of the top-level struct `a`.
    pub fn of2(a: &str, b: &str) -> (r: ColumnName)
        ensures
            r@ == seq![a@, b@],
    {
        let mut path: Vec<String> = Vec::new();
        path.push(a.to_owned());
        path.push(b.to_owned());
        let r = ColumnName { path };
        assert(r@ =~= seq![a@, b@]);
        r
    }

    /// The name of column `c` of the struct `b` of the top-level struct `a`.
    pub fn of3(a: &str, b: &str, c: &str) -> (r: ColumnName)
        ensures
            r@ == seq![a@, b@, c@],
    {
        let mut path: Vec<String> = Vec::new();
        path.push(a.to_owned());
        path.push(b.to_owned());
        path.push(c.to_owned());
        let r = ColumnName { path };
        assert(r@ =~= seq![a@, b@, c@]);
        r
    }

    /// The path that continues this path with the path `rest`.
    pub fn join(&self, rest: &ColumnName) -> (r: ColumnName)
        ensures
            r@ == self@ + rest@,
    {
        let mut path: Vec<String> = Vec::new();
        let mut i: usize = 0;
        while i < self.path.len()
            invariant
                i <= self.path.len(),
                path.len() == i,
                forall|j: int| 0 <= j < i ==> path[j]@ == self.path[j]@,
            decreases self.path.len() - i,
        {
            path.push(self.path[i].clone());
            i += 1;
        }
        let mut k: usize = 0;
        while k < rest.path.len()
            invariant
                k <= rest.path.len(),
                path.len() == self.path.len() + k,
                forall|j: int| 0 <= j < self.path.len() ==> path[j]@ == self.path[j]@,
                forall|j: int| 0 <= j < k ==> path[self.path.len() + j]@ == rest.path[j]@,
            decreases rest.path.len() - k,
        {
            path.push(rest.path[k].clone());
            k += 1;
        }
        let r = ColumnName { path };
        assert(r@ =~= self@ + rest@);
        r
    }

    /// Whether two names are the same path.
    pub fn same(&self, other: &ColumnName) -> (r: bool)
        ensures
            r == (self@ == other@),
    {
        if self.path.len() != other.path.len() {
            assert(self@.len() != other@.len());
            return false;
        }
        let mut i: usize = 0;
        while i < self.path.len()
            invariant
                i <= self.path.len(),
                self.path.len() == other.path.len(),
                forall|j: int| 0 <= j < i ==> self@[j] == other@[j],
            decreases self.path.len() - i,
        {
            if self.path[i] != other.path[i] {
                assert(self@[i as int] != other@[i as int]);
                return false;
            }
            i += 1;
        }
        assert(self@ =~= other@);
        true
    }
}

impl Clone for ColumnName {
    fn clone(&self) -> (r: ColumnName)
        ensures
            r@ == self@,
    {
        let mut path: Vec<String> = Vec::new();
        let mut i: usize = 0;
        while i < self.path.len()
            invariant
                i <= self.path.len(),
                path.len() == i,
                forall|j: int| 0 <= j < i ==> path[j]@ == self.path[j]@,
            decreases self.path.len() - i,
        {
            path.push(self.path[i].clone());
            i += 1;
        }
        let r = ColumnName { path };
        assert(r@ =~= self@);
        r
    }
}

/// The primitive types that a scalar, and so a partition column, can have.
#[derive(Clone, Copy, Debug, PartialEq, Eq, Structural)]
pub enum PrimitiveType {
    String,
    Long,
    Integer,
    Short,
    Byte,
    Boolean,
    Date,
    Timestamp,
    TimestampNtz,
}

/// A map between primitive keys and values.
#[derive(Clone, Copy, Debug, PartialEq, Eq, Structural)]
pub struct MapType {
    pub key_type: PrimitiveType,
    pub value_type: PrimitiveType,
    pub value_contains_null: bool,
}

impl MapType {
    pub fn new(key_type: PrimitiveType, value_type: PrimitiveType, value_contains_null: bool) -> (r:
        MapType)
        ensures
            r == (MapType { key_type, value_type, value_contains_null }),
    {
        MapType { key_type, value_type, value_contains_null }
    }
}

/// The type of a column.
#[derive(Debug, PartialEq, Eq)]
pub enum DataType {
    Primitive(PrimitiveType),
    MapOf(MapType),
    Struct(Box<StructType>),
}

/// A named, typed member of a struct.
#[derive(Debug, PartialEq, Eq)]
pub struct StructField {
    pub name: String,
    pub data_type: DataType,
    pub nullable: bool,
    /// The name of the column in the data files, where it differs from `name`.
    pub physical_name: Option<String>,
}

/// An ordered list of fields. Positions are stable: a field is addressed by its
/// index.
#[derive(Debug, PartialEq, Eq)]
pub struct StructType {
    pub fields: Vec<StructField>,
}

/// The mathematical value of a [`DataType`].
pub enum DataTypeView {
    Primitive(PrimitiveType),
    MapOf(MapType),
    Struct(Seq<StructFieldView>),
}

/// The mathematical value of a [`StructField`].
pub struct StructFieldView {
    pub name: Seq<char>,
    pub data_type: DataTypeView,
    pub nullable: bool,
    pub physical_name: Option<Seq<char>>,
}

impl StructFieldView {
    /// The name under which the field is stored in the data files.
    pub open spec fn physical_name(self) -> Seq<char> {
        match self.physical_name {
            Some(n) => n,
            None => self.name,
        }
    }
}

pub open spec fn data_type_view(t: DataType) -> DataTypeView
    decreases t,
{
    match t {
        DataType::Primitive(p) => DataTypeView::Primitive(p),
        DataType::MapOf(m) => DataTypeView::MapOf(m),
        DataType::Struct(s) => DataTypeView::Struct(struct_type_view(*s)),
    }
}

pub open spec fn struct_field_view(f: StructField) -> StructFieldView
    decreases f,
{
    StructFieldView {
        name: f.name@,
        data_type: data_type_view(f.data_type),
        nullable: f.nullable,
        physical_name: match f.physical_name {
            Some(n) => Some(n@),
            None => None,
        },
    }
}

pub open spec fn struct_type_view(s: StructType) -> Seq<StructFieldView>
    decreases s,
{
    Seq::new(
        s.fields.len() as nat,
        |i: int|
            if 0 <= i < s.fields.len() {
                struct_field_view(s.fields[i])
            } else {
                arbitrary()
            },
    )
}

impl View for DataType {
    type V = DataTypeView;

    open spec fn view(&self) -> DataTypeView {
        data_type_view(*self)
    }
}

impl View for StructField {
    type V = StructFieldView;

    open spec fn view(&self) -> StructFieldView {
        struct_field_view(*self)
    }
}

impl View for StructType {
    type V = Seq<StructFieldView>;

    open spec fn view(&self) -> Seq<StructFieldView> {
        struct_type_view(*self)
    }
}

impl DataType {
    /// The primitive type that this type is, if it is one.
    pub fn as_primitive_opt(&self) -> (r: Option<PrimitiveType>)
        ensures
            r == match self@ {
                DataTypeView::Primitive(p) => Some(p),
                _ => None,
            },
    {
        match self {
            DataType::Primitive(p) => Some(*p),
            _ => None,
        }
    }
}

impl StructField {
    /// A field stored under its own name.
    pub fn new(name: String, data_type: DataType, nullable: bool) -> (r: StructField)
        ensures
            r@ == (StructFieldView {
                name: name@,
                data_type: data_type@,
                nullable,
                physical_name: None,
            }),
    {
        StructField { name, data_type, nullable, physical_name: None }
    }

    /// A nullable field stored under its own name.
    pub fn nullable(name: String, data_type: DataType) -> (r: StructField)
        ensures
            r@ == (StructFieldView {
                name: name@,
                data_type: data_type@,
                nullable: true,
                physical_name: None,
            }),
    {
        StructField { name, data_type, nullable: true, physical_name: None }
    }

    /// The name under which the field is stored in the data files.
    pub fn physical_name(&self) -> (r: &String)
        ensures
            r@ == self@.physical_name(),
    {
        match &self.physical_name {
            Some(n) => n,
            None => &self.name,
        }
    }

    pub fn data_type(&self) -> (r: &DataType)
        ensures
            r@ == self@.data_type,
    {
        &self.data_type
    }
}

impl StructType {
    pub fn new(fields: Vec<StructField>) -> (r: StructType)
        ensures
            r@ == fields@.map_values(|f: StructField| f@),
    {
        let r = StructType { fields };
        assert(r@ =~= fields@.map_values(|f: StructField| f@));
        r
    }

    /// The field at position `index`, if the schema has that many fields.
    pub fn get_index(&self, index: usize) -> (r: Option<&StructField>)
        ensures
            r is Some <==> index < self@.len(),
            r matches Some(f) ==> f@ == self@[index as int],
    {
        if index < self.fields.len() {
            Some(&self.fields[index])
        } else {
            None
        }
    }

    pub fn len(&self) -> (r: usize)
        ensures
            r == self@.len(),
    {
        self.fields.len()
    }
}

} // verus!
