//! Field types, field definitions, geometry types and table schemas.
use vstd::prelude::*;
use crate::value::{FieldValue, ValueView};
use crate::text::str_eq;

verus! {

/// FileGDB field types (the type byte of a field description).
#[derive(Debug, Clone, Copy, PartialEq, Eq, Structural)]
pub enum FieldType {
    Int16,
    Int32,
    Float32,
    Float64,
    String,
    DateTime,
    ObjectId,
    Geometry,
    Binary,
    Raster,
    Uuid,
    Xml,
    Int64,
    Date,
    Time,
    /// Any other type, with its code kept so that it can be written back.
    Other(u8),
}

/// The field type of a type code (10 and 11 are both UUIDs).
pub open spec fn field_type_of(c: u8) -> FieldType {
    if c == 0 { FieldType::Int16 }
    else if c == 1 { FieldType::Int32 }
    else if c == 2 { FieldType::Float32 }
    else if c == 3 { FieldType::Float64 }
    else if c == 4 { FieldType::String }
    else if c == 5 { FieldType::DateTime }
    else if c == 6 { FieldType::ObjectId }
    else if c == 7 { FieldType::Geometry }
    else if c == 8 { FieldType::Binary }
    else if c == 9 { FieldType::Raster }
    else if c == 10 || c == 11 { FieldType::Uuid }
    else if c == 12 { FieldType::Xml }
    else if c == 13 { FieldType::Int64 }
    else if c == 14 { FieldType::Date }
    else if c == 15 { FieldType::Time }
    else { FieldType::Other(c) }
}

/// The type code of a field type.
pub open spec fn field_type_code(t: FieldType) -> u8 {
    match t {
        FieldType::Int16 => 0,
        FieldType::Int32 => 1,
        FieldType::Float32 => 2,
        FieldType::Float64 => 3,
        FieldType::String => 4,
        FieldType::DateTime => 5,
        FieldType::ObjectId => 6,
        FieldType::Geometry => 7,
        FieldType::Binary => 8,
        FieldType::Raster => 9,
        FieldType::Uuid => 10,
        FieldType::Xml => 12,
        FieldType::Int64 => 13,
        FieldType::Date => 14,
        FieldType::Time => 15,
        FieldType::Other(c) => c,
    }
}

/// The row storage size of a fixed-size field type (0 for the others).
pub open spec fn fixed_size_of(t: FieldType) -> nat {
    match t {
        FieldType::Int16 => 2,
        FieldType::Int32 | FieldType::Float32 => 4,
        FieldType::Float64 | FieldType::DateTime | FieldType::Date | FieldType::Time | FieldType::Int64 => 8,
        FieldType::Uuid => 16,
        _ => 0,
    }
}

impl FieldType {
    /// The field type of a type code.
    pub fn from_code(c: u8) -> (t: FieldType)
        ensures
            t == field_type_of(c),
    {
        match c {
            0 => FieldType::Int16,
            1 => FieldType::Int32,
            2 => FieldType::Float32,
            3 => FieldType::Float64,
            4 => FieldType::String,
            5 => FieldType::DateTime,
            6 => FieldType::ObjectId,
            7 => FieldType::Geometry,
            8 => FieldType::Binary,
            9 => FieldType::Raster,
            10 | 11 => FieldType::Uuid,
            12 => FieldType::Xml,
            13 => FieldType::Int64,
            14 => FieldType::Date,
            15 => FieldType::Time,
            other => FieldType::Other(other),
        }
    }

    /// The type code.
    pub fn code(self) -> (c: u8)
        ensures
            c == field_type_code(self),
    {
        match self {
            FieldType::Int16 => 0,
            FieldType::Int32 => 1,
            FieldType::Float32 => 2,
            FieldType::Float64 => 3,
            FieldType::String => 4,
            FieldType::DateTime => 5,
            FieldType::ObjectId => 6,
            FieldType::Geometry => 7,
            FieldType::Binary => 8,
            FieldType::Raster => 9,
            FieldType::Uuid => 10,
            FieldType::Xml => 12,
            FieldType::Int64 => 13,
            FieldType::Date => 14,
            FieldType::Time => 15,
            FieldType::Other(c) => c,
        }
    }

    /// Whether values of this type are stored inline with a fixed size (no length prefix).
    /// Object IDs are not stored in rows at all.
    pub fn is_fixed(self) -> (b: bool)
        ensures
            b == (fixed_size_of(self) > 0),
    {
        match self {
            FieldType::Int16 | FieldType::Int32 | FieldType::Float32 | FieldType::Float64
            | FieldType::DateTime | FieldType::Date | FieldType::Time | FieldType::Int64
            | FieldType::Uuid => true,
            _ => false,
        }
    }

    /// The row storage size of a fixed-size type (0 for variable-size types).
    pub fn fixed_size(self) -> (n: usize)
        ensures
            n == fixed_size_of(self),
    {
        match self {
            FieldType::Int16 => 2,
            FieldType::Int32 => 4,
            FieldType::Float32 => 4,
            FieldType::Float64 => 8,
            FieldType::DateTime | FieldType::Date | FieldType::Time => 8,
            FieldType::Int64 => 8,
            FieldType::Uuid => 16,
            _ => 0,
        }
    }
}

/// The code of a type read from a code is that code, except that 11 (a second UUID code)
/// becomes 10.
pub proof fn law_field_type_code_roundtrip(c: u8)
    ensures
        field_type_code(field_type_of(c)) == (if c == 11 { 10 } else { c }),
{
}

/// Reading back the code of a field type gives the type, unless it is an `Other` that
/// carries one of the known codes.
pub proof fn law_field_type_of_code(t: FieldType)
    requires
        t matches FieldType::Other(c) ==> c > 15,
    ensures
        field_type_of(field_type_code(t)) == t,
{
}

/// Base geometry types (the low byte of the layer flags).
#[derive(Debug, Clone, Copy, PartialEq, Eq, Structural)]
pub enum GeometryType {
    NoGeometry,
    Point,
    MultiPoint,
    Polyline,
    Polygon,
    Envelope,
    MultiPatch,
    /// Any other code (curves, 3D, mixed ...), kept as it is.
    Other(i32),
}

/// The geometry type of a code.
pub open spec fn geometry_type_of(c: i32) -> GeometryType {
    if c == 0 { GeometryType::NoGeometry }
    else if c == 1 { GeometryType::Point }
    else if c == 2 { GeometryType::MultiPoint }
    else if c == 3 { GeometryType::Polyline }
    else if c == 4 { GeometryType::Polygon }
    else if c == 5 { GeometryType::Envelope }
    else if c == 9 { GeometryType::MultiPatch }
    else { GeometryType::Other(c) }
}

/// The code of a geometry type.
pub open spec fn geometry_type_code(t: GeometryType) -> i32 {
    match t {
        GeometryType::NoGeometry => 0,
        GeometryType::Point => 1,
        GeometryType::MultiPoint => 2,
        GeometryType::Polyline => 3,
        GeometryType::Polygon => 4,
        GeometryType::Envelope => 5,
        GeometryType::MultiPatch => 9,
        GeometryType::Other(c) => c,
    }
}

impl GeometryType {
    /// The geometry type of a code.
    pub fn from_code(c: i32) -> (t: GeometryType)
        ensures
            t == geometry_type_of(c),
    {
        match c {
            0 => GeometryType::NoGeometry,
            1 => GeometryType::Point,
            2 => GeometryType::MultiPoint,
            3 => GeometryType::Polyline,
            4 => GeometryType::Polygon,
            5 => GeometryType::Envelope,
            9 => GeometryType::MultiPatch,
            other => GeometryType::Other(other),
        }
    }

    /// The code.
    pub fn code(self) -> (c: i32)
        ensures
            c == geometry_type_code(self),
    {
        match self {
            GeometryType::NoGeometry => 0,
            GeometryType::Point => 1,
            GeometryType::MultiPoint => 2,
            GeometryType::Polyline => 3,
            GeometryType::Polygon => 4,
            GeometryType::Envelope => 5,
            GeometryType::MultiPatch => 9,
            GeometryType::Other(c) => c,
        }
    }
}

/// Every geometry type code reads back to itself.
pub proof fn law_geometry_type_code_roundtrip(c: i32)
    ensures
        geometry_type_code(geometry_type_of(c)) == c,
{
}

/// Reading back the code of a geometry type gives the type, unless it is an `Other` that
/// carries one of the known codes.
pub proof fn law_geometry_type_of_code(t: GeometryType)
    requires
        t matches GeometryType::Other(c) ==> !(0 <= c <= 5 || c == 9),
    ensures
        geometry_type_of(geometry_type_code(t)) == t,
{
}

/// Precision-grid parameters of a geometry field, as the IEEE-754 bit patterns of the
/// float64 values stored in the field description.
///
/// Real coordinate = `grid / xyscale + xorig` (and likewise for Y, Z, M).
#[derive(Debug, PartialEq)]
pub struct PrecisionGrid {
    pub xorig: u64,
    pub yorig: u64,
    pub xyscale: u64,
    pub zorig: u64,
    pub zscale: u64,
    pub morig: u64,
    pub mscale: u64,
    /// XY tolerance.
    pub xytol: u64,
    /// M tolerance.
    pub mtol: u64,
    /// Z tolerance.
    pub ztol: u64,
    /// Layer extent `(xmin, ymin, xmax, ymax)`.
    pub extent: (u64, u64, u64, u64),
    /// Spatial index grid sizes (usually one to three).
    pub grid_sizes: Vec<u64>,
}

/// Bit pattern of `-2147483647.0`.
pub const F64_MINUS_2147483647: u64 = 0xc1df_ffff_ffc0_0000;
/// Bit pattern of `1e9`.
pub const F64_1E9: u64 = 0x41cd_cd65_0000_0000;
/// Bit pattern of `-1e9`.
pub const F64_MINUS_1E9: u64 = 0xc1cd_cd65_0000_0000;
/// Bit pattern of `0.001`.
pub const F64_0_001: u64 = 0x3f50_624d_d2f1_a9fc;

impl Clone for PrecisionGrid {
    fn clone(&self) -> (g: Self)
        ensures
            g.xorig == self.xorig && g.yorig == self.yorig && g.xyscale == self.xyscale,
            g.zorig == self.zorig && g.zscale == self.zscale,
            g.morig == self.morig && g.mscale == self.mscale,
            g.xytol == self.xytol && g.mtol == self.mtol && g.ztol == self.ztol,
            g.extent == self.extent,
            g.grid_sizes@ == self.grid_sizes@,
    {
        let mut sizes: Vec<u64> = Vec::new();
        let mut i: usize = 0;
        while i < self.grid_sizes.len()
            invariant
                i <= self.grid_sizes@.len(),
                sizes@ == self.grid_sizes@.take(i as int),
            decreases self.grid_sizes@.len() - i,
        {
            sizes.push(self.grid_sizes[i]);
            assert(self.grid_sizes@.take(i + 1) == self.grid_sizes@.take(i as int).push(self.grid_sizes@[i as int]));
            i = i + 1;
        }
        assert(self.grid_sizes@.take(i as int) == self.grid_sizes@);
        PrecisionGrid {
            xorig: self.xorig,
            yorig: self.yorig,
            xyscale: self.xyscale,
            zorig: self.zorig,
            zscale: self.zscale,
            morig: self.morig,
            mscale: self.mscale,
            xytol: self.xytol,
            mtol: self.mtol,
            ztol: self.ztol,
            extent: self.extent,
            grid_sizes: sizes,
        }
    }
}

impl Default for PrecisionGrid {
    /// The grid that ArcGIS and OGR use by default for projected coordinates: origins at
    /// -2147483647 (XY) and -1e9 (Z, M), scales 1e9, tolerances 0.001, empty extent.
    fn default() -> (g: Self)
        ensures
            g.xorig == F64_MINUS_2147483647,
            g.yorig == F64_MINUS_2147483647,
            g.xyscale == F64_1E9,
            g.zorig == F64_MINUS_1E9,
            g.zscale == F64_1E9,
            g.morig == F64_MINUS_1E9,
            g.mscale == F64_1E9,
            g.xytol == F64_0_001,
            g.mtol == F64_0_001,
            g.ztol == F64_0_001,
            g.extent == (0u64, 0u64, 0u64, 0u64),
            g.grid_sizes@.len() == 0,
    {
        PrecisionGrid {
            xorig: F64_MINUS_2147483647,
            yorig: F64_MINUS_2147483647,
            xyscale: F64_1E9,
            zorig: F64_MINUS_1E9,
            zscale: F64_1E9,
            morig: F64_MINUS_1E9,
            mscale: F64_1E9,
            xytol: F64_0_001,
            mtol: F64_0_001,
            ztol: F64_0_001,
            extent: (0, 0, 0, 0),
            grid_sizes: Vec::new(),
        }
    }
}

/// The definition of one field.
#[derive(Debug, Clone)]
pub struct FieldDef {
    pub name: String,
    pub alias: String,
    pub field_type: FieldType,
    /// Flags bit 0 (0x01).
    pub nullable: bool,
    /// Flags bit 1 (0x02); always set for the object ID field.
    pub required: bool,
    /// Flags bit 2 (0x04); only editable fields carry a default value.
    pub editable: bool,
    /// Maximum length (string fields).
    pub length: i32,
    /// Precision grid (geometry fields).
    pub grid: PrecisionGrid,
    /// Spatial reference WKT (geometry fields).
    pub srs_wkt: String,
    /// Whether the geometry has Z.
    pub geom_has_z: bool,
    /// Whether the geometry has M.
    pub geom_has_m: bool,
    /// The default value, when the definition carries one.
    pub default: Option<FieldValue>,
}

/// The mathematical value of a precision grid.
pub struct GridView {
    pub xorig: u64,
    pub yorig: u64,
    pub xyscale: u64,
    pub zorig: u64,
    pub zscale: u64,
    pub morig: u64,
    pub mscale: u64,
    pub xytol: u64,
    pub mtol: u64,
    pub ztol: u64,
    pub extent: (u64, u64, u64, u64),
    pub grid_sizes: Seq<u64>,
}

impl View for PrecisionGrid {
    type V = GridView;

    open spec fn view(&self) -> GridView {
        GridView {
            xorig: self.xorig,
            yorig: self.yorig,
            xyscale: self.xyscale,
            zorig: self.zorig,
            zscale: self.zscale,
            morig: self.morig,
            mscale: self.mscale,
            xytol: self.xytol,
            mtol: self.mtol,
            ztol: self.ztol,
            extent: self.extent,
            grid_sizes: self.grid_sizes@,
        }
    }
}

/// The default grid (see `PrecisionGrid::default`).
pub open spec fn default_grid() -> GridView {
    GridView {
        xorig: F64_MINUS_2147483647,
        yorig: F64_MINUS_2147483647,
        xyscale: F64_1E9,
        zorig: F64_MINUS_1E9,
        zscale: F64_1E9,
        morig: F64_MINUS_1E9,
        mscale: F64_1E9,
        xytol: F64_0_001,
        mtol: F64_0_001,
        ztol: F64_0_001,
        extent: (0, 0, 0, 0),
        grid_sizes: Seq::empty(),
    }
}

/// The mathematical value of a field definition.
pub struct FieldDefView {
    pub name: Seq<char>,
    pub alias: Seq<char>,
    pub field_type: FieldType,
    pub nullable: bool,
    pub required: bool,
    pub editable: bool,
    pub length: i32,
    pub grid: GridView,
    pub srs_wkt: Seq<char>,
    pub geom_has_z: bool,
    pub geom_has_m: bool,
    pub default: Option<ValueView>,
}

impl View for FieldDef {
    type V = FieldDefView;

    open spec fn view(&self) -> FieldDefView {
        FieldDefView {
            name: self.name@,
            alias: self.alias@,
            field_type: self.field_type,
            nullable: self.nullable,
            required: self.required,
            editable: self.editable,
            length: self.length,
            grid: self.grid@,
            srs_wkt: self.srs_wkt@,
            geom_has_z: self.geom_has_z,
            geom_has_m: self.geom_has_m,
            default: match self.default {
                Some(v) => Some(v@),
                None => None,
            },
        }
    }
}

/// The definition that `FieldDef::new(name, t)` makes.
pub open spec fn new_field_view(name: Seq<char>, t: FieldType) -> FieldDefView {
    FieldDefView {
        name,
        alias: Seq::empty(),
        field_type: t,
        nullable: true,
        required: false,
        editable: true,
        length: 0,
        grid: default_grid(),
        srs_wkt: Seq::empty(),
        geom_has_z: false,
        geom_has_m: false,
        default: None,
    }
}

/// The flags byte of a field: bit 0 nullable, bit 1 required, bit 2 editable.
pub open spec fn flags_of(nullable: bool, required: bool, editable: bool) -> u8 {
    ((if nullable { 1u8 } else { 0u8 }) + (if required { 2u8 } else { 0u8 }) + (if editable { 4u8 } else { 0u8 })) as u8
}

impl FieldDef {
    /// A nullable, editable field with no alias, length, grid, spatial reference or default.
    pub fn new(name: &str, field_type: FieldType) -> (f: FieldDef)
        ensures
            f@ == new_field_view(name@, field_type),
            f.name@ == name@,
            f.alias@.len() == 0,
            f.field_type == field_type,
            f.nullable,
            !f.required,
            f.editable,
            f.length == 0,
            f.grid.xorig == F64_MINUS_2147483647 && f.grid.xyscale == F64_1E9 && f.grid.grid_sizes@.len() == 0,
            f.srs_wkt@.len() == 0,
            !f.geom_has_z,
            !f.geom_has_m,
            f.default is None,
    {
        let grid = PrecisionGrid::default();
        assert(grid.grid_sizes@ =~= Seq::<u64>::empty());
        assert(grid@ == default_grid());
        let f = FieldDef {
            name: name.to_string(),
            alias: String::new(),
            field_type,
            nullable: true,
            required: false,
            editable: true,
            length: 0,
            grid,
            srs_wkt: String::new(),
            geom_has_z: false,
            geom_has_m: false,
            default: None,
        };
        assert(f.alias@ =~= Seq::<char>::empty());
        assert(f.srs_wkt@ =~= Seq::<char>::empty());
        f
    }

    /// The flags byte: bit 0 nullable, bit 1 required, bit 2 editable.
    pub fn flags_byte(&self) -> (b: u8)
        ensures
            b == flags_of(self.nullable, self.required, self.editable),
    {
        let mut f: u8 = 0;
        if self.nullable {
            f = f + 1;
        }
        if self.required {
            f = f + 2;
        }
        if self.editable {
            f = f + 4;
        }
        f
    }
}

/// The complete schema of a table or feature class.
#[derive(Debug, Clone)]
pub struct TableSchema {
    /// Geometry type; `NoGeometry` for a table without shapes.
    pub geometry_type: GeometryType,
    /// Whether geometries have Z.
    pub has_z: bool,
    /// Whether geometries have M.
    pub has_m: bool,
    /// Whether text is stored as UTF-8 (otherwise UTF-16).
    pub string_utf8: bool,
    /// All fields, the object ID and geometry fields included.
    pub fields: Vec<FieldDef>,
}

/// The mathematical value of a table schema.
pub struct SchemaView {
    pub geometry_type: GeometryType,
    pub has_z: bool,
    pub has_m: bool,
    pub string_utf8: bool,
    pub fields: Seq<FieldDefView>,
}

/// The views of field definitions.
pub open spec fn fields_view(fields: Seq<FieldDef>) -> Seq<FieldDefView> {
    fields.map_values(|f: FieldDef| f@)
}

impl View for TableSchema {
    type V = SchemaView;

    open spec fn view(&self) -> SchemaView {
        SchemaView {
            geometry_type: self.geometry_type,
            has_z: self.has_z,
            has_m: self.has_m,
            string_utf8: self.string_utf8,
            fields: fields_view(self.fields@),
        }
    }
}

/// The index of the first field of type `t`, if any.
pub open spec fn first_of_type(fields: Seq<FieldDef>, t: FieldType) -> Option<nat> {
    if exists|i: int| 0 <= i < fields.len() && fields[i].field_type == t {
        Some(choose|i: nat| i < fields.len() && fields[i as int].field_type == t
            && forall|j: int| 0 <= j < i ==> fields[j].field_type != t)
    } else {
        None
    }
}

/// The index of the first field named `name`, if any.
pub open spec fn first_named(fields: Seq<FieldDef>, name: Seq<char>) -> Option<nat> {
    if exists|i: int| 0 <= i < fields.len() && fields[i].name@ == name {
        Some(choose|i: nat| i < fields.len() && fields[i as int].name@ == name
            && forall|j: int| 0 <= j < i ==> fields[j].name@ != name)
    } else {
        None
    }
}

/// An optional index as a `usize`.
pub open spec fn opt_index(o: Option<nat>) -> Option<usize> {
    match o {
        Some(i) => Some(i as usize),
        None => None,
    }
}

/// The number of nullable fields.
pub open spec fn nullable_count_of(fields: Seq<FieldDefView>) -> nat
    decreases fields.len(),
{
    if fields.len() == 0 {
        0
    } else {
        nullable_count_of(fields.drop_last()) + (if fields.last().nullable { 1nat } else { 0nat })
    }
}

/// Searching for the first field of a type.
fn position_of_type(fields: &Vec<FieldDef>, t: FieldType) -> (r: Option<usize>)
    ensures
        r == opt_index(first_of_type(fields@, t)),
        r matches Some(i) ==> first_of_type(fields@, t) == Some(i as nat) && i < fields@.len(),
{
    let mut i: usize = 0;
    while i < fields.len()
        invariant
            i <= fields@.len(),
            forall|j: int| 0 <= j < i ==> fields@[j].field_type != t,
        decreases fields@.len() - i,
    {
        if fields[i].field_type == t {
            proof {
                let w = choose|k: nat| k < fields@.len() && fields@[k as int].field_type == t
                    && forall|j: int| 0 <= j < k ==> fields@[j].field_type != t;
                assert((i as nat) < fields@.len() && fields@[i as int].field_type == t
                    && forall|j: int| 0 <= j < i ==> fields@[j].field_type != t);
                if w < i {
                } else if w > i {
                    assert(fields@[i as int].field_type != t);
                }
            }
            return Some(i);
        }
        i = i + 1;
    }
    None
}

impl TableSchema {
    /// The index of the object ID field (usually 0).
    pub fn objectid_index(&self) -> (r: Option<usize>)
        ensures
            r == opt_index(first_of_type(self.fields@, FieldType::ObjectId)),
            r matches Some(i) ==> first_of_type(self.fields@, FieldType::ObjectId) == Some(i as nat) && i < self.fields@.len(),
    {
        position_of_type(&self.fields, FieldType::ObjectId)
    }

    /// The index of the geometry field (none for a table without shapes).
    pub fn geometry_index(&self) -> (r: Option<usize>)
        ensures
            r == opt_index(first_of_type(self.fields@, FieldType::Geometry)),
            r matches Some(i) ==> first_of_type(self.fields@, FieldType::Geometry) == Some(i as nat) && i < self.fields@.len(),
    {
        position_of_type(&self.fields, FieldType::Geometry)
    }

    /// The index of the first field with this name.
    pub fn field_index(&self, name: &str) -> (r: Option<usize>)
        ensures
            r == opt_index(first_named(self.fields@, name@)),
            r matches Some(i) ==> first_named(self.fields@, name@) == Some(i as nat) && i < self.fields@.len(),
    {
        let mut i: usize = 0;
        while i < self.fields.len()
            invariant
                i <= self.fields@.len(),
                forall|j: int| 0 <= j < i ==> self.fields@[j].name@ != name@,
            decreases self.fields@.len() - i,
        {
            if str_eq(self.fields[i].name.as_str(), name) {
                proof {
                    let w = choose|k: nat| k < self.fields@.len() && self.fields@[k as int].name@ == name@
                        && forall|j: int| 0 <= j < k ==> self.fields@[j].name@ != name@;
                    assert((i as nat) < self.fields@.len() && self.fields@[i as int].name@ == name@
                        && forall|j: int| 0 <= j < i ==> self.fields@[j].name@ != name@);
                    if w > i {
                        assert(self.fields@[i as int].name@ != name@);
                    }
                }
                return Some(i);
            }
            i = i + 1;
        }
        None
    }

    /// The number of nullable fields (the null bitmap has one bit for each).
    pub fn nullable_count(&self) -> (n: usize)
        ensures
            n == nullable_count_of(fields_view(self.fields@)),
    {
        let ghost fv = fields_view(self.fields@);
        let mut n: usize = 0;
        let mut i: usize = 0;
        while i < self.fields.len()
            invariant
                fv == fields_view(self.fields@),
                i <= self.fields@.len(),
                n == nullable_count_of(fv.take(i as int)),
                n <= i,
            decreases self.fields@.len() - i,
        {
            proof {
                assert(fv.take(i + 1).drop_last() =~= fv.take(i as int));
                assert(fv[i as int] == self.fields@[i as int]@);
            }
            if self.fields[i].nullable {
                n = n + 1;
            }
            i = i + 1;
        }
        assert(fv.take(i as int) =~= fv);
        n
    }
}

} // verus!
