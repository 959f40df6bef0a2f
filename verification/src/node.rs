//! Fields of a class: what kind of value a node holds, and the node itself.

use vstd::prelude::*;

verus! {

/// Identifies a class for as long as its registry lives; never handed out twice.
pub type ClassId = u32;

/// Width of an integer field.
#[derive(Clone, Copy, Debug, PartialEq, Eq, Structural)]
pub enum IntWidth {
    W8,
    W16,
    W32,
    W64,
}

/// How the bytes of a text field are read.
#[derive(Clone, Copy, Debug, PartialEq, Eq, Structural)]
pub enum TextEncoding {
    Utf8,
    Utf16,
}

/// What a field holds.
#[derive(Debug, PartialEq, Eq)]
pub enum NodeKind {
    Hex(IntWidth),
    Int(IntWidth),
    UInt(IntWidth),
    Float32,
    Float64,
    Bool,
    Vec2,
    Vec3,
    Vec4,
    /// `len` characters of text, stored in place.
    Text { encoding: TextEncoding, len: usize },
    Pointer,
    FunctionPtr,
    /// `count` elements, one after the other.
    Array { element: Box<NodeKind>, count: usize },
    /// The fields of another class, stored in place.
    ClassInstance { class_id: ClassId },
    /// The address of an instance of another class.
    ClassPtr { class_id: ClassId },
    Padding(usize),
    Unknown(usize),
    /// A kind that is carried and not looked into: how many bytes it takes, and
    /// how it is written in JSON. It stores no other class and points to none.
    Other { size: usize, text: String },
}

/// Bytes of an integer of width `w`.
pub open spec fn width_bytes(w: IntWidth) -> nat {
    match w {
        IntWidth::W8 => 1,
        IntWidth::W16 => 2,
        IntWidth::W32 => 4,
        IntWidth::W64 => 8,
    }
}

/// Bytes of one character in `e`.
pub open spec fn unit_bytes(e: TextEncoding) -> nat {
    match e {
        TextEncoding::Utf8 => 1,
        TextEncoding::Utf16 => 2,
    }
}

/// Bytes of a field that holds no other field, where an address takes `ptr`
/// bytes. Arrays and inline instances have no bytes of their own.
pub open spec fn leaf_bytes(kind: NodeKind, ptr: nat) -> nat {
    match kind {
        NodeKind::Hex(w) => width_bytes(w),
        NodeKind::Int(w) => width_bytes(w),
        NodeKind::UInt(w) => width_bytes(w),
        NodeKind::Float32 => 4,
        NodeKind::Float64 => 8,
        NodeKind::Bool => 1,
        NodeKind::Vec2 => 8,
        NodeKind::Vec3 => 12,
        NodeKind::Vec4 => 16,
        NodeKind::Text { encoding, len } => len as nat * unit_bytes(encoding),
        NodeKind::Pointer => ptr,
        NodeKind::FunctionPtr => ptr,
        NodeKind::ClassPtr { class_id } => ptr,
        NodeKind::Padding(n) => n as nat,
        NodeKind::Unknown(n) => n as nat,
        NodeKind::Other { size, text } => size as nat,
        NodeKind::Array { element, count } => 0,
        NodeKind::ClassInstance { class_id } => 0,
    }
}

/// `n`, or the largest `usize` where that is smaller.
pub open spec fn capped(n: nat) -> usize {
    if n <= usize::MAX {
        n as usize
    } else {
        usize::MAX
    }
}

/// How many arrays deep the elements of `kind` lie.
pub open spec fn array_depth(kind: NodeKind) -> nat
    decreases kind,
{
    match kind {
        NodeKind::Array { element, count } => 1 + array_depth(*element),
        _ => 0,
    }
}

/// The class whose fields `kind` stores in place, directly or as the element
/// of an array. A pointer stores nothing of its target.
pub open spec fn inline_target(kind: NodeKind) -> Option<ClassId>
    decreases kind,
{
    match kind {
        NodeKind::ClassInstance { class_id } => Some(class_id),
        NodeKind::Array { element, count } => inline_target(*element),
        _ => None,
    }
}

/// The class that `kind` refers to, in place or through a pointer.
pub open spec fn reference(kind: NodeKind) -> Option<ClassId>
    decreases kind,
{
    match kind {
        NodeKind::ClassInstance { class_id } => Some(class_id),
        NodeKind::ClassPtr { class_id } => Some(class_id),
        NodeKind::Array { element, count } => reference(*element),
        _ => None,
    }
}

impl IntWidth {
    /// Bytes of an integer of this width.
    pub fn bytes(self) -> (r: usize)
        ensures
            r == width_bytes(self),
            1 <= r <= 8,
    {
        match self {
            IntWidth::W8 => 1,
            IntWidth::W16 => 2,
            IntWidth::W32 => 4,
            IntWidth::W64 => 8,
        }
    }
}

/// Sum of two capped numbers, capped.
pub fn sum_capped(a: usize, b: usize) -> (r: usize)
    ensures
        r == capped(a as nat + b as nat),
{
    if a <= usize::MAX - b {
        a + b
    } else {
        usize::MAX
    }
}

/// Product of two capped numbers, capped.
pub fn product_capped(a: usize, b: usize) -> (r: usize)
    ensures
        r == capped(a as nat * b as nat),
{
    match a.checked_mul(b) {
        Some(p) => {
            p
        },
        None => usize::MAX,
    }
}

/// Capping the parts first does not change a capped sum.
pub proof fn lemma_capped_sum(a: nat, b: nat)
    ensures
        capped(capped(a) as nat + capped(b) as nat) == capped(a + b),
{
}

/// Capping the factor first does not change a capped product.
pub proof fn lemma_capped_product(n: nat, a: nat)
    ensures
        capped(n * capped(a) as nat) == capped(n * a),
{
    if a > usize::MAX {
        if n == 0 {
            assert(n * a == 0) by (nonlinear_arith)
                requires
                    n == 0,
            ;
            assert(n * capped(a) as nat == 0) by (nonlinear_arith)
                requires
                    n == 0,
            ;
        } else {
            let m = capped(a) as nat;
            assert(n * m >= m) by (nonlinear_arith)
                requires
                    n >= 1,
            ;
            assert(n * a >= a) by (nonlinear_arith)
                requires
                    n >= 1,
            ;
        }
    }
}

/// Equally capped factors have equally capped products.
pub proof fn lemma_capped_product_same(n: nat, a: nat, b: nat)
    requires
        capped(a) == capped(b),
    ensures
        capped(n * a) == capped(n * b),
{
    lemma_capped_product(n, a);
    lemma_capped_product(n, b);
    let m = capped(a) as nat;
    assert(n * m == n * capped(b) as nat);
}

impl NodeKind {
    /// A copy of the kind.
    pub fn dup(&self) -> (r: NodeKind)
        ensures
            r == *self,
        decreases self,
    {
        match self {
            NodeKind::Hex(w) => NodeKind::Hex(*w),
            NodeKind::Int(w) => NodeKind::Int(*w),
            NodeKind::UInt(w) => NodeKind::UInt(*w),
            NodeKind::Float32 => NodeKind::Float32,
            NodeKind::Float64 => NodeKind::Float64,
            NodeKind::Bool => NodeKind::Bool,
            NodeKind::Vec2 => NodeKind::Vec2,
            NodeKind::Vec3 => NodeKind::Vec3,
            NodeKind::Vec4 => NodeKind::Vec4,
            NodeKind::Text { encoding, len } => NodeKind::Text { encoding: *encoding, len: *len },
            NodeKind::Pointer => NodeKind::Pointer,
            NodeKind::FunctionPtr => NodeKind::FunctionPtr,
            NodeKind::Array { element, count } => NodeKind::Array {
                element: Box::new((**element).dup()),
                count: *count,
            },
            NodeKind::ClassInstance { class_id } => NodeKind::ClassInstance { class_id: *class_id },
            NodeKind::ClassPtr { class_id } => NodeKind::ClassPtr { class_id: *class_id },
            NodeKind::Padding(n) => NodeKind::Padding(*n),
            NodeKind::Unknown(n) => NodeKind::Unknown(*n),
            NodeKind::Other { size, text } => NodeKind::Other { size: *size, text: text.clone() },
        }
    }

    /// [`leaf_bytes`] of the kind, capped.
    pub fn leaf_size(&self, ptr: usize) -> (r: usize)
        ensures
            r == capped(leaf_bytes(*self, ptr as nat)),
    {
        match self {
            NodeKind::Hex(w) => w.bytes(),
            NodeKind::Int(w) => w.bytes(),
            NodeKind::UInt(w) => w.bytes(),
            NodeKind::Float32 => 4,
            NodeKind::Float64 => 8,
            NodeKind::Bool => 1,
            NodeKind::Vec2 => 8,
            NodeKind::Vec3 => 12,
            NodeKind::Vec4 => 16,
            NodeKind::Text { encoding, len } => match encoding {
                TextEncoding::Utf8 => {
                    proof {
                        assert(*len as nat * 1 == *len as nat);
                    }
                    *len
                },
                TextEncoding::Utf16 => product_capped(*len, 2),
            },
            NodeKind::Pointer => ptr,
            NodeKind::FunctionPtr => ptr,
            NodeKind::ClassPtr { .. } => ptr,
            NodeKind::Padding(n) => *n,
            NodeKind::Unknown(n) => *n,
            NodeKind::Other { size, .. } => *size,
            NodeKind::Array { .. } => 0,
            NodeKind::ClassInstance { .. } => 0,
        }
    }

    /// Bytes of the kind where addresses take eight bytes and no class is
    /// known, so that an inline instance takes none.
    pub fn fixed_size(&self) -> (r: usize)
        ensures
            r == capped(fixed_bytes(*self)),
        decreases self,
    {
        match self {
            NodeKind::Array { element, count } => {
                let one: usize = (**element).fixed_size();
                proof {
                    lemma_capped_product(*count as nat, fixed_bytes(**element));
                }
                product_capped(*count, one)
            },
            _ => self.leaf_size(8),
        }
    }

    /// [`inline_target`] of the kind.
    pub fn inline_class(&self) -> (r: Option<ClassId>)
        ensures
            r == inline_target(*self),
        decreases self,
    {
        match self {
            NodeKind::ClassInstance { class_id } => Some(*class_id),
            NodeKind::Array { element, .. } => (**element).inline_class(),
            _ => None,
        }
    }

    /// [`reference`] of the kind.
    pub fn referenced_class(&self) -> (r: Option<ClassId>)
        ensures
            r == reference(*self),
        decreases self,
    {
        match self {
            NodeKind::ClassInstance { class_id } => Some(*class_id),
            NodeKind::ClassPtr { class_id } => Some(*class_id),
            NodeKind::Array { element, .. } => (**element).referenced_class(),
            _ => None,
        }
    }
}

/// Bytes of `kind` where addresses take eight bytes and inline instances none.
pub open spec fn fixed_bytes(kind: NodeKind) -> nat
    decreases kind,
{
    match kind {
        NodeKind::Array { element, count } => count as nat * fixed_bytes(*element),
        _ => leaf_bytes(kind, 8),
    }
}

impl Clone for NodeKind {
    fn clone(&self) -> (r: NodeKind)
        ensures
            r == *self,
    {
        self.dup()
    }
}

/// One field of a class.
#[derive(Debug, PartialEq, Eq)]
pub struct Node {
    pub name: String,
    pub comment: String,
    pub kind: NodeKind,
}

/// What a [`Node`] says.
pub struct NodeV {
    pub name: Seq<char>,
    pub comment: Seq<char>,
    pub kind: NodeKind,
}

impl View for Node {
    type V = NodeV;

    open spec fn view(&self) -> NodeV {
        NodeV { name: self.name@, comment: self.comment@, kind: self.kind }
    }
}

/// A fresh field: named, without a comment.
pub open spec fn plain_node(name: Seq<char>, kind: NodeKind) -> NodeV {
    NodeV { name, comment: Seq::empty(), kind }
}

/// What a list of nodes says.
pub open spec fn nodes_view(s: Seq<Node>) -> Seq<NodeV> {
    Seq::new(s.len(), |i: int| s[i]@)
}

impl Node {
    /// A field without a comment.
    pub fn new(name: &str, kind: NodeKind) -> (r: Node)
        ensures
            r@ == plain_node(name@, kind),
    {
        Node { name: name.to_owned(), comment: String::new(), kind }
    }

    /// A copy of the field.
    pub fn dup(&self) -> (r: Node)
        ensures
            r@ == self@,
    {
        Node { name: self.name.clone(), comment: self.comment.clone(), kind: self.kind.dup() }
    }
}

/// A copy of a list of fields.
pub fn dup_nodes(v: &Vec<Node>) -> (r: Vec<Node>)
    ensures
        nodes_view(r@) == nodes_view(v@),
        r@.len() == v@.len(),
{
    let mut out: Vec<Node> = Vec::new();
    let mut i: usize = 0;
    while i < v.len()
        invariant
            i <= v@.len(),
            out@.len() == i,
            forall|j: int| 0 <= j < i ==> (#[trigger] out@[j])@ == v@[j]@,
        decreases v@.len() - i,
    {
        out.push(v[i].dup());
        i = i + 1;
    }
    proof {
        assert(nodes_view(out@) =~= nodes_view(v@));
    }
    out
}

/// One step of the way from a view's class down to a field.
#[derive(Clone, Copy, Debug, PartialEq, Eq, Hash, Structural)]
pub enum PathSeg {
    /// Field number of the class at hand.
    Node(usize),
    /// Element number of the array at hand.
    Elem(usize),
}

/// A class lies in a field where the field is an instance of it, or an array of
/// what holds it, however deep; a pointer holds no class.
pub proof fn law_arrays_hold_what_their_elements_hold(id: ClassId, element: NodeKind, count: usize)
    ensures
        inline_target(NodeKind::ClassInstance { class_id: id }) == Some(id),
        inline_target(NodeKind::ClassPtr { class_id: id }) is None,
        inline_target(NodeKind::Array { element: Box::new(element), count }) == inline_target(
            element,
        ),
        reference(NodeKind::ClassInstance { class_id: id }) == Some(id),
        reference(NodeKind::ClassPtr { class_id: id }) == Some(id),
        reference(NodeKind::Array { element: Box::new(element), count }) == reference(element),
        inline_target(element) is Some ==> reference(element) == inline_target(element),
    decreases element,
{
    match element {
        NodeKind::Array { element: inner, count: n } => {
            law_arrays_hold_what_their_elements_hold(id, *inner, n);
        },
        _ => {},
    }
}

} // verus!
