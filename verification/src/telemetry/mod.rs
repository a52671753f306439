//! What is exported: points of metrics with their attributes.

pub mod laws;
pub mod live;
pub mod preflight;

use crate::config;
use crate::sensors;
use crate::sensors::{Accelerator, Measurement, Ratio};
use crate::text;
use vstd::prelude::*;

verus! {

/// The value of an attribute.
#[derive(Debug)]
pub enum AttrValue {
    Text(String),
    Number(i64),
    Flag(bool),
}

/// An attribute of a point.
#[derive(Debug)]
pub struct Attr {
    pub key: String,
    pub value: AttrValue,
}

/// The model of an attribute's value.
pub enum ValueModel {
    Text(Seq<char>),
    Number(int),
    Flag(bool),
}

/// The model of an attribute.
#[verifier::ext_equal]
pub struct AttrModel {
    pub key: Seq<char>,
    pub value: ValueModel,
}

impl View for Attr {
    type V = AttrModel;

    open spec fn view(&self) -> AttrModel {
        AttrModel {
            key: self.key@,
            value: match self.value {
                AttrValue::Text(s) => ValueModel::Text(s@),
                AttrValue::Number(n) => ValueModel::Number(n as int),
                AttrValue::Flag(b) => ValueModel::Flag(b),
            },
        }
    }
}

/// The models of attributes.
pub open spec fn attr_models(v: Seq<Attr>) -> Seq<AttrModel> {
    v.map_values(|a: Attr| a@)
}

/// A text attribute.
pub open spec fn text_of(key: Seq<char>, value: Seq<char>) -> AttrModel {
    AttrModel { key, value: ValueModel::Text(value) }
}

/// A number attribute.
pub open spec fn number_of(key: Seq<char>, value: int) -> AttrModel {
    AttrModel { key, value: ValueModel::Number(value) }
}

/// A truth attribute.
pub open spec fn flag_of(key: Seq<char>, value: bool) -> AttrModel {
    AttrModel { key, value: ValueModel::Flag(value) }
}

/// The attributes that every point of an accelerator carries.
pub open spec fn base_of(a: Accelerator) -> Seq<AttrModel> {
    seq![
        text_of("vendor"@, a.id.vendor.name()),
        text_of("model"@, a.model@),
        number_of("accel.index"@, a.id.drm_index as int),
        text_of("pci_addr"@, a.id.pci_addr@),
        text_of("memory_kind"@, a.memory_kind.name()),
        text_of("coverage"@, a.coverage.name()),
        text_of("fabric_domain"@, config::value_or(text::opt_text(a.fabric_domain), Seq::empty())),
        number_of(
            "numa_node"@,
            match a.numa_node {
                Some(n) => n as int,
                None => -1,
            },
        ),
    ]
}

/// Adds a text attribute.
pub fn push_text(attrs: &mut Vec<Attr>, key: &str, value: &str)
    ensures
        attr_models(final(attrs)@) == attr_models(old(attrs)@).push(text_of(key@, value@)),
{
    let ghost before = attr_models(attrs@);
    attrs.push(Attr { key: key.to_owned(), value: AttrValue::Text(value.to_owned()) });
    assert(attr_models(attrs@) =~= before.push(text_of(key@, value@)));
}

/// Adds a number attribute.
pub fn push_number(attrs: &mut Vec<Attr>, key: &str, value: i64)
    ensures
        attr_models(final(attrs)@) == attr_models(old(attrs)@).push(number_of(key@, value as int)),
{
    let ghost before = attr_models(attrs@);
    attrs.push(Attr { key: key.to_owned(), value: AttrValue::Number(value) });
    assert(attr_models(attrs@) =~= before.push(number_of(key@, value as int)));
}

/// Adds a truth attribute.
pub fn push_flag(attrs: &mut Vec<Attr>, key: &str, value: bool)
    ensures
        attr_models(final(attrs)@) == attr_models(old(attrs)@).push(flag_of(key@, value)),
{
    let ghost before = attr_models(attrs@);
    attrs.push(Attr { key: key.to_owned(), value: AttrValue::Flag(value) });
    assert(attr_models(attrs@) =~= before.push(flag_of(key@, value)));
}

/// The attributes that every point of `accel` carries.
pub fn base_attrs(accel: &Accelerator) -> (r: Vec<Attr>)
    ensures
        attr_models(r@) == base_of(*accel),
{
    let mut attrs: Vec<Attr> = Vec::new();
    assert(attr_models(attrs@) =~= Seq::empty());
    push_text(&mut attrs, "vendor", accel.id.vendor.slug());
    push_text(&mut attrs, "model", accel.model.as_str());
    push_number(&mut attrs, "accel.index", accel.id.drm_index as i64);
    push_text(&mut attrs, "pci_addr", accel.id.pci_addr.as_str());
    push_text(&mut attrs, "memory_kind", accel.memory_kind.slug());
    push_text(&mut attrs, "coverage", accel.coverage.slug());
    match &accel.fabric_domain {
        Some(s) => {
            push_text(&mut attrs, "fabric_domain", s.as_str());
        },
        None => {
            let s = String::new();
            assert(s@ =~= Seq::empty());
            push_text(&mut attrs, "fabric_domain", s.as_str());
        },
    }
    let numa: i64 = match accel.numa_node {
        Some(n) => n as i64,
        None => -1,
    };
    push_number(&mut attrs, "numa_node", numa);
    assert(attr_models(attrs@) =~= base_of(*accel));
    attrs
}

/// One value of a gauge.
#[derive(Debug)]
pub struct Point {
    pub name: &'static str,
    pub unit: &'static str,
    pub description: &'static str,
    pub value: Ratio,
    pub attrs: Vec<Attr>,
}

/// The model of a point.
#[verifier::ext_equal]
pub struct PointModel {
    pub name: Seq<char>,
    pub unit: Seq<char>,
    pub description: Seq<char>,
    pub value: Ratio,
    pub attrs: Seq<AttrModel>,
}

impl View for Point {
    type V = PointModel;

    open spec fn view(&self) -> PointModel {
        PointModel {
            name: self.name@,
            unit: self.unit@,
            description: self.description@,
            value: self.value,
            attrs: attr_models(self.attrs@),
        }
    }
}

/// The models of points.
pub open spec fn point_models(v: Seq<Point>) -> Seq<PointModel> {
    v.map_values(|p: Point| p@)
}

/// The attributes that a measurement brings along.
pub open spec fn own_attrs(m: sensors::MeasurementModel) -> Seq<AttrModel> {
    m.attrs.map_values(|a: (Seq<char>, Seq<char>)| text_of(a.0, a.1))
}

/// A measurement as a point: the attributes in `head`, then its own.
pub open spec fn point_of(head: Seq<AttrModel>, m: sensors::MeasurementModel) -> PointModel {
    PointModel {
        name: m.name,
        unit: m.unit,
        description: m.description,
        value: m.value,
        attrs: head + own_attrs(m),
    }
}

/// A measurement as a point: the attributes in `attrs`, then its own.
pub fn point(attrs: Vec<Attr>, m: &Measurement) -> (r: Point)
    ensures
        r@ == point_of(attr_models(attrs@), m@),
{
    let mut attrs = attrs;
    let ghost head = attr_models(attrs@);
    let ghost own = own_attrs(m@);
    let mut i: usize = 0;
    assert(head + own.take(0) =~= head);
    while i < m.attrs.len()
        invariant
            i <= m.attrs@.len(),
            own == own_attrs(m@),
            own.len() == m.attrs@.len(),
            attr_models(attrs@) == head + own.take(i as int),
        decreases m.attrs@.len() - i,
    {
        push_text(&mut attrs, m.attrs[i].0, m.attrs[i].1.as_str());
        i = i + 1;
        assert(own[i - 1] == text_of(m.attrs@[i - 1].0@, m.attrs@[i - 1].1@));
        assert(head + own.take(i as int) =~= (head + own.take(i - 1)).push(own[i - 1]));
    }
    assert(own.take(own.len() as int) =~= own);
    Point { name: m.name, unit: m.unit, description: m.description, value: m.value, attrs }
}

} // verus!
