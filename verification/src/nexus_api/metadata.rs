//! The content preview of a file: a tree of the entries of its archive,
//! which tells whether the archive holds a plugin without downloading it.

use vstd::prelude::*;
use crate::json::{lemma_field_is_smaller, Json};
use crate::text::{chars_of, ends_with, is_suffix, str_eq};

verus! {

/// What is wrong with a content preview.
#[derive(Debug, Clone, Copy, PartialEq, Eq, Structural)]
pub enum MetadataError {
    MissingType,
    TypeNotString,
    MissingName,
    NameNotString,
    ChildrenNotArray,
}

/// Whether a name ends as the name of a plugin does: in `.esp`, `.esm` or
/// `.esl`, in lower case.
pub open spec fn names_plugin(name: Seq<char>) -> bool {
    is_suffix(".esp"@, name) || is_suffix(".esm"@, name) || is_suffix(".esl"@, name)
}

/// Whether the node itself is a file with the name of a plugin, or the
/// first thing wrong with its `type` and `name`.
pub open spec fn node_is_plugin(node: Json) -> Result<bool, MetadataError> {
    if node.field("type"@) is None {
        Err(MetadataError::MissingType)
    } else if node.field("type"@)->0.text() is None {
        Err(MetadataError::TypeNotString)
    } else if node.field("type"@)->0.text()->0@ != "file"@ {
        Ok(false)
    } else if node.field("name"@) is None {
        Err(MetadataError::MissingName)
    } else if node.field("name"@)->0.text() is None {
        Err(MetadataError::NameNotString)
    } else {
        Ok(names_plugin(node.field("name"@)->0.text()->0@))
    }
}

/// Whether a node of the preview or any node below it is a file with the
/// name of a plugin.
///
/// The tree is walked depth first, a node before its children and the
/// children in order; the walk ends at the first plugin or the first fault.
/// A node without `children` has none; `children` that is no array is a
/// fault.
pub open spec fn has_plugin_spec(node: Json) -> Result<bool, MetadataError>
    decreases node, 0int,
{
    match node_is_plugin(node) {
        Err(e) => Err(e),
        Ok(true) => Ok(true),
        Ok(false) => match node.field("children"@) {
            None => Ok(false),
            Some(Json::Array(items)) => {
                proof {
                    lemma_field_is_smaller(node, "children"@);
                }
                any_has_plugin(items@)
            },
            Some(_) => Err(MetadataError::ChildrenNotArray),
        },
    }
}

/// Whether any of the nodes, or any node below one of them, is a plugin:
/// the answer of the first node that is a plugin or at fault, else `false`.
pub open spec fn any_has_plugin(nodes: Seq<Json>) -> Result<bool, MetadataError>
    decreases nodes, 1int,
{
    if nodes.len() == 0 {
        Ok(false)
    } else {
        match has_plugin_spec(nodes[0]) {
            Err(e) => Err(e),
            Ok(true) => Ok(true),
            Ok(false) => any_has_plugin(nodes.drop_first()),
        }
    }
}

/// Whether a name ends as the name of a plugin does.
pub fn is_plugin_name(name: &str) -> (r: bool)
    ensures
        r == names_plugin(name@),
{
    let chars = chars_of(name);
    ends_with(&chars, &chars_of(".esp")) || ends_with(&chars, &chars_of(".esm")) || ends_with(
        &chars,
        &chars_of(".esl"),
    )
}

/// Whether the node itself is a file with the name of a plugin.
fn check_node(node: &Json) -> (r: Result<bool, MetadataError>)
    ensures
        r == node_is_plugin(*node),
{
    let kind = match node.get("type") {
        None => {
            return Err(MetadataError::MissingType);
        },
        Some(v) => match v.as_str() {
            None => {
                return Err(MetadataError::TypeNotString);
            },
            Some(s) => s,
        },
    };
    if !str_eq(kind.as_str(), "file") {
        return Ok(false);
    }
    let name = match node.get("name") {
        None => {
            return Err(MetadataError::MissingName);
        },
        Some(v) => match v.as_str() {
            None => {
                return Err(MetadataError::NameNotString);
            },
            Some(s) => s,
        },
    };
    Ok(is_plugin_name(name.as_str()))
}

/// Whether any of the nodes from position `from` on, or any node below
/// one of them, is a plugin.
fn any_child_has_plugin(nodes: &Vec<Json>, from: usize) -> (r: Result<bool, MetadataError>)
    requires
        from <= nodes.len(),
    ensures
        r == any_has_plugin(nodes@.subrange(from as int, nodes.len() as int)),
    decreases nodes, 1int, nodes.len() - from,
{
    if from == nodes.len() {
        return Ok(false);
    }
    let ghost rest = nodes@.subrange(from as int, nodes.len() as int);
    assert(rest[0] == nodes@[from as int]);
    assert(rest.drop_first() =~= nodes@.subrange(from as int + 1, nodes.len() as int));
    match has_plugin(&nodes[from]) {
        Err(e) => Err(e),
        Ok(true) => Ok(true),
        Ok(false) => any_child_has_plugin(nodes, from + 1),
    }
}

/// Whether the preview tree below and including `node` names a plugin.
///
/// A node is a plugin where its `type` is `file` and its `name` ends in
/// `.esp`, `.esm` or `.esl`. Every node must have a `type` that is a
/// string, and every file a `name` that is a string.
pub fn has_plugin(node: &Json) -> (r: Result<bool, MetadataError>)
    ensures
        r == has_plugin_spec(*node),
    decreases node, 0int, 0int,
{
    match check_node(node) {
        Err(e) => {
            return Err(e);
        },
        Ok(true) => {
            return Ok(true);
        },
        Ok(false) => {},
    }
    match node.get("children") {
        None => Ok(false),
        Some(children) => match children {
            Json::Array(items) => {
                proof {
                    lemma_field_is_smaller(*node, "children"@);
                }
                assert(items@.subrange(0, items.len() as int) =~= items@);
                any_child_has_plugin(items, 0)
            },
            _ => Err(MetadataError::ChildrenNotArray),
        },
    }
}

/// Whether the content preview of a file reports a plugin.
///
/// The root of a preview has no `type` of its own: only what is under its
/// `children` is looked at. A root without `children` reports none.
pub open spec fn preview_has_plugin(root: Json) -> Result<bool, MetadataError> {
    match root.field("children"@) {
        None => Ok(false),
        Some(Json::Array(items)) => any_has_plugin(items@),
        Some(_) => Err(MetadataError::ChildrenNotArray),
    }
}

/// Answers from the content preview of a file whether its archive holds a
/// plugin.
pub fn contains_plugin(root: &Json) -> (r: Result<bool, MetadataError>)
    ensures
        r == preview_has_plugin(*root),
{
    match root.get("children") {
        None => Ok(false),
        Some(children) => match children {
            Json::Array(items) => {
                assert(items@.subrange(0, items.len() as int) =~= items@);
                any_child_has_plugin(items, 0)
            },
            _ => Err(MetadataError::ChildrenNotArray),
        },
    }
}

} // verus!
