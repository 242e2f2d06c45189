//! Cloud Monitor.

use vstd::prelude::*;
use crate::cloud::aliyun::rpc;
use crate::cloud::aliyun::rpc::{ApiCall, RpcClient};
use crate::json;
use crate::json::Json;
use crate::real64::Real64;
use crate::text;

verus! {

/// The version of the interface.
pub const CMS_API_VERSION: &'static str = "2019-01-01";

/// The code that says success.
pub const CMS_OK_CODE: &'static str = "200";

/// A measured value.
#[derive(Debug)]
pub struct MetricPoint {
    pub instance_id: String,
    /// The disk; empty where the metric is not of a disk.
    pub device: String,
    pub average: Real64,
}

/// What a point says.
pub struct PointView {
    pub instance_id: Seq<char>,
    pub device: Seq<char>,
    pub average: Real64,
}

impl View for MetricPoint {
    type V = PointView;

    open spec fn view(&self) -> PointView {
        PointView { instance_id: self.instance_id@, device: self.device@, average: self.average }
    }
}

/// A client of the product in one region.
#[derive(Debug)]
pub struct CmsClient {
    pub rpc: RpcClient,
}

impl CmsClient {
    /// A client in the region.
    pub fn new(access_key_id: &str, access_key_secret: &str, region: &str) -> (c: CmsClient)
        ensures
            c.rpc@ == (rpc::RpcView {
                access_key_id: access_key_id@,
                access_key_secret: access_key_secret@,
                region: region@,
                product: "metrics"@,
            }),
    {
        CmsClient { rpc: RpcClient::new(access_key_id, access_key_secret, region, "metrics") }
    }

    /// The call for the latest points of a metric: of the instance that `dims` names, or of all.
    pub fn describe_metric_last<'a>(
        &self,
        namespace: &'a str,
        metric: &'a str,
        dims: Option<&'a str>,
    ) -> (c: ApiCall<'a>)
        ensures
            c@ == (rpc::CallView {
                action: "DescribeMetricLast"@,
                version: CMS_API_VERSION@,
                params: match dims {
                    Some(d) => seq![
                        ("Namespace"@, namespace@),
                        ("MetricName"@, metric@),
                        ("Dimensions"@, d@),
                    ],
                    None => seq![("Namespace"@, namespace@), ("MetricName"@, metric@)],
                },
            }),
    {
        let c = ApiCall::plain("DescribeMetricLast", CMS_API_VERSION).with(
            "Namespace",
            namespace,
        ).with("MetricName", metric);
        assert(c@.params =~= seq![("Namespace"@, namespace@), ("MetricName"@, metric@)]);
        match dims {
            Some(d) => {
                let c = c.with("Dimensions", d);
                assert(c@.params =~= seq![
                    ("Namespace"@, namespace@),
                    ("MetricName"@, metric@),
                    ("Dimensions"@, d@),
                ]);
                c
            },
            None => c,
        }
    }
}

/// The value under the first of the keys that the record has.
pub open spec fn either(
    fields: Seq<json::FieldView>,
    first: Seq<char>,
    second: Seq<char>,
) -> Option<json::ScalarView> {
    match json::lookup(fields, first) {
        Some(v) => Some(v),
        None => json::lookup(fields, second),
    }
}

/// The text, empty where there is none.
pub open spec fn text_or_empty(v: Option<Seq<char>>) -> Seq<char> {
    match v {
        Some(s) => s,
        None => Seq::empty(),
    }
}

/// The point that a record is: it has to name an instance and to have a number.
pub open spec fn point_of(fields: Seq<json::FieldView>) -> Option<PointView> {
    let instance_id = text_or_empty(json::as_text(either(fields, "instanceId"@, "InstanceId"@)));
    let device = text_or_empty(json::as_text(either(fields, "device"@, "Device"@)));
    let average = json::as_real(
        match either(fields, "Average"@, "average"@) {
            Some(v) => Some(v),
            None => json::lookup(fields, "Maximum"@),
        },
    );
    match average {
        Some(a) => if instance_id.len() == 0 {
            None
        } else {
            Some(PointView { instance_id, device, average: a })
        },
        None => None,
    }
}

/// The points of the items, those left out that are none.
pub open spec fn points_of(items: Seq<json::ItemView>) -> Seq<PointView>
    decreases items.len(),
{
    if items.len() == 0 {
        Seq::empty()
    } else {
        match point_of(json::item_fields(items.last())) {
            Some(p) => points_of(items.drop_last()).push(p),
            None => points_of(items.drop_last()),
        }
    }
}

/// The points of a document; of one that is no array, none.
pub open spec fn document_points(d: Result<json::JsonView, Seq<char>>) -> Seq<PointView> {
    match json::array_items(d) {
        Some(items) => points_of(items),
        None => Seq::empty(),
    }
}

/// What an optional point says.
pub open spec fn opt_point(p: Option<MetricPoint>) -> Option<PointView> {
    match p {
        Some(x) => Some(x@),
        None => None,
    }
}

/// The value under the first of the keys that the record has.
fn get_either<'a>(fields: &'a Vec<json::Field>, first: &str, second: &str) -> (r: Option<
    &'a json::Scalar,
>)
    ensures
        json::opt_scalar(r) == either(text::views(fields@), first@, second@),
{
    match json::get(fields, first) {
        Some(v) => Some(v),
        None => json::get(fields, second),
    }
}

/// The text of a value that is one, else the empty text.
fn string_or_empty(v: Option<&json::Scalar>) -> (r: String)
    ensures
        r@ == text_or_empty(json::as_text(json::opt_scalar(v))),
{
    match json::text_value(v) {
        Some(s) => s.to_owned(),
        None => String::new(),
    }
}

/// The point that a record is.
fn read_point(fields: &Vec<json::Field>) -> (r: Option<MetricPoint>)
    ensures
        opt_point(r) == point_of(text::views(fields@)),
{
    let instance_id = string_or_empty(get_either(fields, "instanceId", "InstanceId"));
    if instance_id.as_str().is_empty() {
        return None;
    }
    let device = string_or_empty(get_either(fields, "device", "Device"));
    let number = match get_either(fields, "Average", "average") {
        Some(v) => Some(v),
        None => json::get(fields, "Maximum"),
    };
    match json::real_value(number) {
        Some(average) => Some(MetricPoint { instance_id, device, average }),
        None => None,
    }
}

/// The points of a document.
pub fn points_of_document(d: Result<Json, String>) -> (r: Vec<MetricPoint>)
    ensures
        text::views(r@) == document_points(json::read_view(d)),
{
    let mut out: Vec<MetricPoint> = Vec::new();
    assert(text::views(out@) =~= Seq::<PointView>::empty());
    match d {
        Ok(Json::List(items)) => {
            let ghost all = text::views(items@);
            assert(all.take(0) =~= Seq::<json::ItemView>::empty());
            for item in it: items
                invariant
                    it.seq() == items@,
                    all == text::views(items@),
                    text::views(out@) == points_of(all.take(it.index() as int)),
            {
                let ghost i = it.index() as int;
                assert(all.take(i + 1).drop_last() =~= all.take(i));
                assert(all.take(i + 1).last() == item@);
                let fields = json::fields_of_item(item);
                if let Some(p) = read_point(&fields) {
                    proof {
                        text::lemma_views_push(out@, p);
                    }
                    out.push(p);
                }
            }
            assert(all.take(items@.len() as int) =~= all);
        },
        _ => {},
    }
    out
}

/// Reads the points of a `Datapoints` text. What is no JSON array has none; an item that names no
/// instance or has no number is left out.
pub fn parse_points(datapoints: &str) -> (r: Vec<MetricPoint>)
    ensures
        text::views(r@) == document_points(json::json_document(datapoints@)),
        forall|i: int| 0 <= i < r@.len() ==> !(#[trigger] r@[i]).average.is_nan(),
{
    let document = json::read_json(datapoints);
    let ghost read = json::read_view(document);
    let r = points_of_document(document);
    assert forall|i: int| 0 <= i < r@.len() implies !(#[trigger] r@[i]).average.is_nan() by {
        assert(text::views(r@)[i] == r@[i]@);
        assert(text::views(r@).len() == r@.len());
        if let Some(items) = json::array_items(read) {
            lemma_points_finite(items);
            assert(!points_of(items)[i].average.is_nan());
        }
    }
    r
}

/// Points that were read from finite numbers are numbers.
proof fn lemma_points_finite(items: Seq<json::ItemView>)
    requires
        forall|i: int| 0 <= i < items.len() ==> json::item_finite(#[trigger] items[i]),
    ensures
        forall|i: int| 0 <= i < points_of(items).len() ==> !(#[trigger] points_of(items)[i]).average.is_nan(),
    decreases items.len(),
{
    if items.len() > 0 {
        let init = items.drop_last();
        assert forall|i: int| 0 <= i < init.len() implies json::item_finite(#[trigger] init[i]) by {
            assert(json::item_finite(items[i]));
        }
        lemma_points_finite(init);
        let fields = json::item_fields(items.last());
        assert(json::item_finite(items[items.len() - 1]));
        json::lemma_lookup_finite(fields, "Average"@);
        json::lemma_lookup_finite(fields, "average"@);
        json::lemma_lookup_finite(fields, "Maximum"@);
        assert(point_of(fields) matches Some(p) ==> p.average.exponent() < 2047);
        assert forall|i: int| 0 <= i < points_of(items).len() implies !(
        #[trigger] points_of(items)[i]).average.is_nan() by {
            if i < points_of(init).len() {
                assert(points_of(items)[i] == points_of(init)[i]);
            }
        }
    }
}

/// Every point names an instance, and there are at most as many as items.
pub proof fn law_points_name_instances(items: Seq<json::ItemView>)
    ensures
        points_of(items).len() <= items.len(),
        forall|i: int|
            0 <= i < points_of(items).len() ==> (#[trigger] points_of(items)[i]).instance_id.len()
                > 0,
    decreases items.len(),
{
    if items.len() > 0 {
        law_points_name_instances(items.drop_last());
    }
}

} // verus!
