//! A deserialized, in-memory tree representation of an XML node, together
//! with a builder. Reading from and writing to streams lives outside the
//! library.

use vstd::prelude::*;
use vstd::string::StringExecFns;
use crate::error::{SCError, SCResult};
use crate::strings::str_eq;

verus! {

/// A deserialized, in-memory tree-representation of an XML node.
#[derive(Debug)]
pub struct XmlNode {
    pub name: String,
    pub data: String,
    pub attributes: Vec<(String, String)>,
    pub childs: Vec<XmlNode>,
}

/// Indicates that the type can be decoded from an XML node.
pub trait FromXmlNode where Self: Sized {
    /// Decodes a value from the given node.
    fn from_node(node: &XmlNode) -> SCResult<Self>;
}

/// A builder that makes the construction of new XML nodes more
/// convenient.
#[derive(Debug)]
pub struct XmlNodeBuilder {
    pub name: String,
    pub data: String,
    pub attributes: Vec<(String, String)>,
    pub childs: Vec<XmlNode>,
}

impl XmlNode {
    /// Creates a new XML node builder with the given tag name.
    pub fn new(name: &str) -> (r: XmlNodeBuilder)
        ensures
            r.name@ == name@,
            r.data@.len() == 0,
            r.attributes@.len() == 0,
            r.childs@.len() == 0,
    {
        XmlNodeBuilder::new(name)
    }

    /// Fetches the node's tag name.
    pub fn name(&self) -> (r: &str)
        ensures
            r@ == self.name@,
    {
        self.name.as_str()
    }

    /// Fetches the node's textual contents.
    pub fn data(&self) -> (r: &str)
        ensures
            r@ == self.data@,
    {
        self.data.as_str()
    }

    /// Whether an attribute with the given key exists.
    pub open spec fn spec_has_attribute(self, key: Seq<char>) -> bool {
        exists|i: int| 0 <= i < self.attributes@.len()
            && (#[trigger] self.attributes@[i]).0@ == key
    }

    /// The value of the first attribute with the given key, from index
    /// `i` on.
    pub open spec fn spec_attr_from(self, key: Seq<char>, i: int) -> Option<Seq<char>>
        decreases self.attributes@.len() - i,
        when 0 <= i
    {
        if i >= self.attributes@.len() {
            None
        } else if self.attributes@[i].0@ == key {
            Some(self.attributes@[i].1@)
        } else {
            self.spec_attr_from(key, i + 1)
        }
    }

    /// The value of the first attribute with the given key.
    pub open spec fn spec_attr(self, key: Seq<char>) -> Option<Seq<char>> {
        self.spec_attr_from(key, 0)
    }

    /// Fetches an attribute's value by key: the first binding wins.
    pub fn attribute(&self, key: &str) -> (r: SCResult<&str>)
        ensures
            r is Ok <==> self.spec_has_attribute(key@),
            r is Ok <==> self.spec_attr(key@) is Some,
            r matches Ok(v) ==> self.spec_attr(key@) == Some(v@),
    {
        let mut i: usize = 0;
        while i < self.attributes.len()
            invariant
                i <= self.attributes@.len(),
                forall|k: int| 0 <= k < i ==> (#[trigger] self.attributes@[k]).0@ != key@,
                self.spec_attr(key@) == self.spec_attr_from(key@, i as int),
            decreases self.attributes@.len() - i,
        {
            if str_eq(self.attributes[i].0.as_str(), key) {
                proof {
                    assert(self.attributes@[i as int].0@ == key@);
                    assert(self.spec_attr_from(key@, i as int)
                        == Some(self.attributes@[i as int].1@));
                }
                return Ok(self.attributes[i].1.as_str());
            }
            i += 1;
        }
        proof {
            assert(self.spec_attr(key@) is None);
            if self.spec_has_attribute(key@) {
                let i = choose|i: int| 0 <= i < self.attributes@.len()
                    && (#[trigger] self.attributes@[i]).0@ == key@;
                assert(false);
            }
        }
        Err(SCError::custom("no attribute with the key was found"))
    }

    /// Whether a child with the given tag name exists.
    pub open spec fn spec_has_child(self, name: Seq<char>) -> bool {
        exists|i: int| 0 <= i < self.childs@.len() && (#[trigger] self.childs@[i]).name@ == name
    }

    /// The children with the given tag name, in order, from index `i` on.
    pub open spec fn spec_childs_named_from(self, name: Seq<char>, i: int) -> Seq<XmlNode>
        decreases self.childs@.len() - i,
        when 0 <= i
    {
        if i >= self.childs@.len() {
            Seq::empty()
        } else if self.childs@[i].name@ == name {
            seq![self.childs@[i]] + self.spec_childs_named_from(name, i + 1)
        } else {
            self.spec_childs_named_from(name, i + 1)
        }
    }

    /// The children with the given tag name, in order.
    pub open spec fn spec_childs_named(self, name: Seq<char>) -> Seq<XmlNode> {
        self.spec_childs_named_from(name, 0)
    }

    /// Finds the first child element with the provided tag name.
    pub fn child_by_name(&self, name: &str) -> (r: SCResult<&XmlNode>)
        ensures
            r is Ok <==> self.spec_has_child(name@),
            r is Ok <==> self.spec_childs_named(name@).len() > 0,
            r matches Ok(c) ==> c.name@ == name@
                && *c == self.spec_childs_named(name@)[0],
    {
        let mut i: usize = 0;
        while i < self.childs.len()
            invariant
                i <= self.childs@.len(),
                forall|k: int| 0 <= k < i ==> (#[trigger] self.childs@[k]).name@ != name@,
                self.spec_childs_named(name@) == self.spec_childs_named_from(name@, i as int),
            decreases self.childs@.len() - i,
        {
            if str_eq(self.childs[i].name.as_str(), name) {
                proof {
                    assert(self.childs@[i as int].name@ == name@);
                    assert(self.spec_childs_named_from(name@, i as int)[0]
                        == self.childs@[i as int]);
                }
                return Ok(&self.childs[i]);
            }
            i += 1;
        }
        proof {
            if self.spec_has_child(name@) {
                let i = choose|i: int| 0 <= i < self.childs@.len()
                    && (#[trigger] self.childs@[i]).name@ == name@;
                assert(false);
            }
        }
        Err(SCError::custom("no child with the tag name was found"))
    }

    /// Fetches all child elements matching the provided tag name.
    pub fn childs_by_name(&self, name: &str) -> (r: Vec<&XmlNode>)
        ensures
            r@.len() == self.spec_childs_named(name@).len(),
            forall|k: int| 0 <= k < r@.len()
                ==> *(#[trigger] r@[k]) == self.spec_childs_named(name@)[k],
            forall|k: int| 0 <= k < r@.len() ==> (#[trigger] r@[k]).name@ == name@,
    {
        let mut r: Vec<&XmlNode> = Vec::new();
        let mut i: usize = 0;
        while i < self.childs.len()
            invariant
                i <= self.childs@.len(),
                r@.len() + self.spec_childs_named_from(name@, i as int).len()
                    == self.spec_childs_named(name@).len(),
                forall|k: int| 0 <= k < r@.len()
                    ==> *(#[trigger] r@[k]) == self.spec_childs_named(name@)[k],
                self.spec_childs_named(name@)
                    == self.spec_childs_named(name@).take(r@.len() as int)
                        + self.spec_childs_named_from(name@, i as int),
                forall|k: int| 0 <= k < r@.len() ==> (#[trigger] r@[k]).name@ == name@,
            decreases self.childs@.len() - i,
        {
            let ghost rpre = r@;
            if str_eq(self.childs[i].name.as_str(), name) {
                r.push(&self.childs[i]);
                proof {
                    assert(forall|k: int| 0 <= k < rpre.len() ==> r@[k] == rpre[k]);
                    assert(self.spec_childs_named_from(name@, i as int)
                        == seq![self.childs@[i as int]]
                            + self.spec_childs_named_from(name@, i + 1));
                    assert(self.spec_childs_named(name@)[rpre.len() as int]
                        == self.childs@[i as int]);
                    assert(self.spec_childs_named(name@)
                        =~= self.spec_childs_named(name@).take(r@.len() as int)
                            + self.spec_childs_named_from(name@, i + 1));
                }
            } else {
                proof {
                    assert(self.spec_childs_named_from(name@, i as int)
                        == self.spec_childs_named_from(name@, i + 1));
                }
            }
            i += 1;
        }
        proof {
            assert(self.spec_childs_named(name@)
                =~= self.spec_childs_named(name@).take(r@.len() as int));
        }
        r
    }

    /// The indented rendering of the node at a nesting depth: the opening
    /// tag with its attributes, then each child on its own line one level
    /// deeper, then the closing tag; leaves close inline as `<name />`.
    /// Textual data is not rendered, matching the writer.
    pub open spec fn spec_pretty(self, depth: nat) -> Seq<char>
        decreases self, 1int,
    {
        let open_tag = seq!['<'] + self.name@ + spec_attr_text(self.attributes@, self.attributes@.len() as int);
        if self.childs@.len() == 0 {
            open_tag + seq![' ', '/', '>']
        } else {
            open_tag + seq!['>']
                + spec_children_text(self.childs@, self.childs@.len() as int, (depth + 1) as nat)
                + seq!['\n'] + spec_indent(depth) + seq!['<', '/'] + self.name@ + seq!['>']
        }
    }

    /// Renders the node tree as indented XML text, the display form.
    pub fn pretty_string(&self) -> (r: String)
        ensures
            r@ == self.spec_pretty(0),
    {
        let mut out: Vec<char> = Vec::new();
        let indent: Vec<char> = Vec::new();
        proof {
            assert(indent@ =~= spec_indent(0));
        }
        self.pretty_into(Ghost(0), &indent, &mut out);
        crate::strings::chars_to_string(out)
    }

    /// Appends the rendering of this node at the given depth, whose
    /// two-space indentation is passed along.
    fn pretty_into(&self, depth: Ghost<nat>, indent: &Vec<char>, out: &mut Vec<char>)
        requires
            indent@ == spec_indent(depth@),
        ensures
            final(out)@ == old(out)@ + self.spec_pretty(depth@),
        decreases self,
    {
        let ghost base = out@;
        out.push('<');
        append_str_chars(self.name.as_str(), out);
        let mut i: usize = 0;
        while i < self.attributes.len()
            invariant
                i <= self.attributes@.len(),
                out@ =~= base + seq!['<'] + self.name@
                    + spec_attr_text(self.attributes@, i as int),
            decreases self.attributes@.len() - i,
        {
            out.push(' ');
            append_str_chars(self.attributes[i].0.as_str(), out);
            out.push('=');
            out.push('"');
            append_str_chars(self.attributes[i].1.as_str(), out);
            out.push('"');
            proof {
                assert(out@ =~= base + seq!['<'] + self.name@
                    + spec_attr_text(self.attributes@, i + 1));
            }
            i += 1;
        }
        let ghost opened = base + seq!['<'] + self.name@
            + spec_attr_text(self.attributes@, self.attributes@.len() as int);
        if self.childs.len() == 0 {
            out.push(' ');
            out.push('/');
            out.push('>');
            proof {
                assert(out@ =~= base + self.spec_pretty(depth@));
            }
            return;
        }
        out.push('>');
        let mut child_indent = copy_chars(indent);
        child_indent.push(' ');
        child_indent.push(' ');
        proof {
            assert(child_indent@ =~= spec_indent((depth@ + 1) as nat));
        }
        let mut i: usize = 0;
        while i < self.childs.len()
            invariant
                i <= self.childs@.len(),
                self.childs@.len() > 0,
                opened == base + seq!['<'] + self.name@
                    + spec_attr_text(self.attributes@, self.attributes@.len() as int),
                child_indent@ == spec_indent((depth@ + 1) as nat),
                out@ =~= opened + seq!['>']
                    + spec_children_text(self.childs@, i as int, (depth@ + 1) as nat),
            decreases self.childs@.len() - i,
        {
            out.push('\n');
            append_chars(&child_indent, out);
            self.childs[i].pretty_into(Ghost((depth@ + 1) as nat), &child_indent, out);
            proof {
                assert(out@ =~= opened + seq!['>']
                    + spec_children_text(self.childs@, i + 1, (depth@ + 1) as nat));
            }
            i += 1;
        }
        out.push('\n');
        append_chars(indent, out);
        out.push('<');
        out.push('/');
        append_str_chars(self.name.as_str(), out);
        out.push('>');
        proof {
            assert(out@ =~= base + self.spec_pretty(depth@));
        }
    }
}

/// The two-space indentation of a nesting depth.
pub open spec fn spec_indent(depth: nat) -> Seq<char>
    decreases depth,
{
    if depth == 0 {
        Seq::empty()
    } else {
        spec_indent((depth - 1) as nat) + seq![' ', ' ']
    }
}

/// The text of the first `n` attributes, each rendered as ` key="value"`.
pub open spec fn spec_attr_text(attrs: Seq<(String, String)>, n: int) -> Seq<char>
    decreases n,
{
    if n <= 0 {
        Seq::empty()
    } else {
        spec_attr_text(attrs, n - 1) + seq![' '] + attrs[n - 1].0@ + seq!['=', '"']
            + attrs[n - 1].1@ + seq!['"']
    }
}

/// The text of the first `n` children, each on its own indented line.
pub open spec fn spec_children_text(childs: Seq<XmlNode>, n: int, depth: nat) -> Seq<char>
    decreases childs, 0int, n,
{
    if n <= 0 || n > childs.len() {
        Seq::empty()
    } else {
        spec_children_text(childs, n - 1, depth) + seq!['\n'] + spec_indent(depth)
            + childs[n - 1].spec_pretty(depth)
    }
}

/// Appends a string's characters.
fn append_str_chars(s: &str, out: &mut Vec<char>)
    ensures
        final(out)@ == old(out)@ + s@,
{
    let mut chars = crate::strings::str_chars(s);
    out.append(&mut chars);
}

/// Appends a copy of the given characters.
fn append_chars(chars: &Vec<char>, out: &mut Vec<char>)
    ensures
        final(out)@ == old(out)@ + chars@,
{
    let mut copy = copy_chars(chars);
    out.append(&mut copy);
}

/// Copies a character vector.
fn copy_chars(v: &Vec<char>) -> (r: Vec<char>)
    ensures
        r@ == v@,
{
    let mut r: Vec<char> = Vec::new();
    let mut i: usize = 0;
    while i < v.len()
        invariant
            i <= v@.len(),
            r@ == v@.subrange(0, i as int),
        decreases v@.len() - i,
    {
        r.push(v[i]);
        proof {
            assert(r@ =~= v@.subrange(0, i + 1));
        }
        i += 1;
    }
    proof {
        assert(r@ =~= v@);
    }
    r
}

impl XmlNodeBuilder {
    /// Creates a new XML node builder with the specified tag name.
    pub fn new(name: &str) -> (r: Self)
        ensures
            r.name@ == name@,
            r.data@.len() == 0,
            r.attributes@.len() == 0,
            r.childs@.len() == 0,
    {
        Self {
            name: String::from_str(name),
            data: String::new(),
            attributes: Vec::new(),
            childs: Vec::new(),
        }
    }

    /// Sets the contents of the XML node.
    pub fn data(self, data: &str) -> (r: Self)
        ensures
            r.name@ == self.name@,
            r.data@ == data@,
            r.attributes@ == self.attributes@,
            r.childs@ == self.childs@,
    {
        Self { data: String::from_str(data), ..self }
    }

    /// Uses the specified attributes.
    pub fn attributes(self, attributes: Vec<(String, String)>) -> (r: Self)
        ensures
            r.name@ == self.name@,
            r.attributes@ == attributes@,
            r.childs@ == self.childs@,
    {
        Self { attributes, ..self }
    }

    /// Adds the specified attribute.
    pub fn attribute(self, key: &str, value: &str) -> (r: Self)
        ensures
            r.name@ == self.name@,
            r.data@ == self.data@,
            r.attributes@.len() == self.attributes@.len() + 1,
            forall|k: int| 0 <= k < self.attributes@.len()
                ==> r.attributes@[k] == self.attributes@[k],
            r.attributes@.last().0@ == key@,
            r.attributes@.last().1@ == value@,
            r.childs@ == self.childs@,
    {
        let mut attributes = self.attributes;
        attributes.push((String::from_str(key), String::from_str(value)));
        Self { attributes, ..self }
    }

    /// Uses the specified children.
    pub fn childs(self, childs: Vec<XmlNode>) -> (r: Self)
        ensures
            r.name@ == self.name@,
            r.attributes@ == self.attributes@,
            r.childs@ == childs@,
    {
        Self { childs, ..self }
    }

    /// Adds the specified child.
    pub fn child(self, child: XmlNode) -> (r: Self)
        ensures
            r.name@ == self.name@,
            r.data@ == self.data@,
            r.attributes@ == self.attributes@,
            r.childs@ == self.childs@.push(child),
    {
        let mut childs = self.childs;
        childs.push(child);
        Self { childs, ..self }
    }

    /// Tries adding the specified child.
    pub fn try_child(self, child: SCResult<XmlNode>) -> (r: SCResult<Self>)
        ensures
            child is Ok ==> r is Ok,
            child is Err ==> r is Err,
    {
        match child {
            Ok(c) => Ok(self.child(c)),
            Err(e) => Err(e),
        }
    }

    /// Builds the XML node.
    pub fn build(self) -> (r: XmlNode)
        ensures
            r.name@ == self.name@,
            r.data@ == self.data@,
            r.attributes@ == self.attributes@,
            r.childs@ == self.childs@,
    {
        XmlNode {
            name: self.name,
            data: self.data,
            attributes: self.attributes,
            childs: self.childs,
        }
    }
}

} // verus!
