//! What a history or note tool hands to the model, and what its observers see of it.

use vstd::prelude::*;
use vstd::string::*;

use crate::json::field_of;
use crate::json::items_view;
use crate::json::json_text;
use crate::json::json_view;
use crate::json::lemma_items_view;
use crate::json::text_field;
use crate::json::Json;
use crate::json::JsonView;
use crate::privacy::private_marker;
use crate::privacy::private_view;
use crate::records::output_items_view;
use crate::records::FunctionCallOutputBody;
use crate::records::FunctionCallOutputContentItem;
use crate::records::OutputBodyView;
use crate::records::OutputItemView;

verus! {

/// The output of a history or note tool.
#[derive(Debug)]
pub struct HistoryNotesToolOutput {
    pub redact_observers: bool,
    pub result: Json,
    pub output: FunctionCallOutputBody,
}

/// What a `HistoryNotesToolOutput` holds.
#[verifier::ext_equal]
pub struct ToolOutputView {
    pub redact_observers: bool,
    pub result: JsonView,
    pub output: OutputBodyView,
}

impl View for HistoryNotesToolOutput {
    type V = ToolOutputView;

    open spec fn view(&self) -> ToolOutputView {
        ToolOutputView {
            redact_observers: self.redact_observers,
            result: self.result@,
            output: self.output@,
        }
    }
}

/// The result without its attachments.
pub open spec fn without_images(result: JsonView) -> JsonView {
    match result {
        JsonView::Object(fields) => JsonView::Object(fields.remove("images"@)),
        other => other,
    }
}

/// What the model sees of a result without attachments: its encrypted output, or its text.
pub open spec fn plain_output(result: JsonView) -> OutputBodyView {
    match text_field(result, "encrypted_output"@) {
        Some(encrypted_content) => OutputBodyView::ContentItems(
            seq![OutputItemView::EncryptedContent { encrypted_content }],
        ),
        None => OutputBodyView::Text(json_text(result)),
    }
}

/// The parts of an output.
pub open spec fn parts_of(output: OutputBodyView) -> Seq<OutputItemView> {
    match output {
        OutputBodyView::Text(text) => seq![OutputItemView::InputText { text }],
        OutputBodyView::ContentItems(items) => items,
    }
}

/// How much detail an image asks for, null where it says nothing.
pub open spec fn detail_of(image: JsonView) -> JsonView {
    match field_of(image, "detail"@) {
        Some(detail) => detail,
        None => JsonView::Null,
    }
}

/// The image with its data, where both its data and its type are texts.
pub open spec fn image_part(image: JsonView) -> Option<OutputItemView> {
    match (text_field(image, "data"@), text_field(image, "mime_type"@)) {
        (Some(data), Some(mime_type)) => Some(
            OutputItemView::InputImage {
                image_url: "data:"@ + mime_type + ";base64,"@ + data,
                detail: detail_of(image),
            },
        ),
        _ => None,
    }
}

/// The detail of the image at the given place is one that is known.
pub open spec fn detail_known(known: Seq<bool>, index: int) -> bool {
    0 <= index < known.len() && known[index]
}

/// The images as parts of an output; none where one of them is not as it should be.
pub open spec fn image_parts(images: Seq<JsonView>, known: Seq<bool>) -> Option<Seq<OutputItemView>>
    decreases images.len(),
{
    if images.len() == 0 {
        Some(Seq::empty())
    } else {
        match (image_parts(images.drop_last(), known), image_part(images.last())) {
            (Some(parts), Some(part)) => if detail_known(known, images.len() - 1) {
                Some(parts.push(part))
            } else {
                None
            },
            _ => None,
        }
    }
}

/// The output of a tool with the given result. `known` says of each image whether its detail is one
/// that is known.
pub open spec fn tool_output(result: JsonView, known: Seq<bool>) -> Result<ToolOutputView, Seq<char>> {
    let rest = without_images(result);
    let plain = plain_output(rest);
    match field_of(result, "images"@) {
        None => Ok(ToolOutputView { redact_observers: false, result: rest, output: plain }),
        Some(JsonView::Array(images)) => match image_parts(images, known) {
            Some(parts) => Ok(
                ToolOutputView {
                    redact_observers: false,
                    result: rest,
                    output: OutputBodyView::ContentItems(parts_of(plain) + parts),
                },
            ),
            None => Err("History backend returned invalid image content."@),
        },
        Some(_) => Err("History backend returned invalid image content."@),
    }
}

/// What an outcome with an output holds.
pub open spec fn output_outcome(outcome: Result<HistoryNotesToolOutput, String>) -> Result<
    ToolOutputView,
    Seq<char>,
> {
    match outcome {
        Ok(output) => Ok(output@),
        Err(error) => Err(error@),
    }
}

/// The details that the images of a result ask for, in their order.
pub open spec fn details_in(result: JsonView) -> Seq<JsonView> {
    match field_of(result, "images"@) {
        Some(JsonView::Array(images)) => images.map_values(|image: JsonView| detail_of(image)),
        _ => Seq::empty(),
    }
}

/// How much detail an image asks for.
fn image_detail(image: &Json) -> (detail: Json)
    ensures
        detail@ == detail_of(image@),
{
    match image.get("detail") {
        Some(detail) => detail.duplicate(),
        None => Json::Null,
    }
}

/// The details that the images of a result ask for, for the host to tell which it knows.
pub fn image_details(result: &Json) -> (details: Vec<Json>)
    ensures
        items_view(details@) == details_in(result@),
{
    let mut details: Vec<Json> = Vec::new();
    let found = match result.get("images") {
        Some(images) => images.as_array(),
        None => None,
    };
    if let Some(images) = found {
        let mut index: usize = 0;
        while index < images.len()
            invariant
                index <= images@.len(),
                details@.len() == index,
                forall|i: int| 0 <= i < index ==> json_view(#[trigger] details@[i]) == detail_of(images@[i]@),
            decreases images@.len() - index,
        {
            details.push(image_detail(&images[index]));
            index = index + 1;
        }
        proof {
            lemma_items_view(details@);
            lemma_items_view(images@);
            assert(items_view(details@) =~= items_view(images@).map_values(|image: JsonView| detail_of(image)));
        }
    }
    details
}

/// The same parts again.
fn copy_items(items: &Vec<FunctionCallOutputContentItem>) -> (copies: Vec<FunctionCallOutputContentItem>)
    ensures
        output_items_view(copies@) == output_items_view(items@),
{
    let mut copies: Vec<FunctionCallOutputContentItem> = Vec::new();
    let mut index: usize = 0;
    while index < items.len()
        invariant
            index <= items@.len(),
            copies@.len() == index,
            forall|i: int| 0 <= i < index ==> (#[trigger] copies@[i])@ == items@[i]@,
        decreases items@.len() - index,
    {
        let copy = match &items[index] {
            FunctionCallOutputContentItem::InputText { text } => FunctionCallOutputContentItem::InputText {
                text: text.clone(),
            },
            FunctionCallOutputContentItem::InputImage { image_url, detail } => {
                FunctionCallOutputContentItem::InputImage {
                    image_url: image_url.clone(),
                    detail: detail.duplicate(),
                }
            },
            FunctionCallOutputContentItem::InputAudio => FunctionCallOutputContentItem::InputAudio,
            FunctionCallOutputContentItem::EncryptedContent { encrypted_content } => {
                FunctionCallOutputContentItem::EncryptedContent { encrypted_content: encrypted_content.clone() }
            },
        };
        copies.push(copy);
        index = index + 1;
    }
    assert(output_items_view(copies@) =~= output_items_view(items@));
    copies
}

/// The images as parts of an output.
fn parse_images(images: &Vec<Json>, known: &Vec<bool>) -> (parts: Option<Vec<FunctionCallOutputContentItem>>)
    ensures
        match parts {
            Some(parts) => image_parts(items_view(images@), known@) == Some(output_items_view(parts@)),
            None => image_parts(items_view(images@), known@) is None,
        },
{
    let mut parts: Vec<FunctionCallOutputContentItem> = Vec::new();
    let ghost views = items_view(images@);
    let mut index: usize = 0;
    proof {
        lemma_items_view(images@);
        assert(views.take(0) =~= Seq::<JsonView>::empty());
        assert(output_items_view(parts@) =~= Seq::<OutputItemView>::empty());
        assert(views.take(views.len() as int) =~= views);
    }
    while index < images.len()
        invariant
            index <= images@.len(),
            views == items_view(images@),
            views.len() == images@.len(),
            forall|i: int| 0 <= i < images@.len() ==> #[trigger] views[i] == json_view(images@[i]),
            views.take(views.len() as int) == views,
            image_parts(views.take(index as int), known@) == Some(output_items_view(parts@)),
        decreases images@.len() - index,
    {
        let image = &images[index];
        proof {
            assert(views[index as int] == image@);
            assert(views.take(index + 1).drop_last() =~= views.take(index as int));
            assert(views.take(index + 1).last() == image@);
            if image_parts(views.take(index + 1), known@) is None {
                lemma_image_parts_none(views, known@, index + 1);
            }
        }
        let data = match image.text_at("data") {
            Some(data) => data,
            None => {
                return None;
            },
        };
        let mime_type = match image.text_at("mime_type") {
            Some(mime_type) => mime_type,
            None => {
                return None;
            },
        };
        if index >= known.len() || !known[index] {
            return None;
        }
        let mut image_url = "data:".to_owned();
        image_url.append(mime_type);
        image_url.append(";base64,");
        image_url.append(data);
        let part = FunctionCallOutputContentItem::InputImage { image_url, detail: image_detail(image) };
        let ghost before = parts@;
        parts.push(part);
        assert(output_items_view(parts@) =~= output_items_view(before).push(part@));
        index = index + 1;
    }
    Some(parts)
}

/// One image that is not as it should be spoils them all.
proof fn lemma_image_parts_none(images: Seq<JsonView>, known: Seq<bool>, count: int)
    requires
        0 <= count <= images.len(),
        image_parts(images.take(count), known) is None,
    ensures
        image_parts(images, known) is None,
    decreases images.len(),
{
    if count < images.len() {
        assert(images.drop_last().take(count) =~= images.take(count));
        lemma_image_parts_none(images.drop_last(), known, count);
    } else {
        assert(images.take(count) =~= images);
    }
}

impl HistoryNotesToolOutput {
    /// The output of a tool with the given result. Attachments are parted from it before any text is
    /// written or kept for the logs.
    pub fn new(result: &Json, known_details: &Vec<bool>) -> (outcome: Result<HistoryNotesToolOutput, String>)
        ensures
            output_outcome(outcome) == tool_output(result@, known_details@),
    {
        let rest = result.without("images");
        let mut output = match rest.text_at("encrypted_output") {
            Some(encrypted) => {
                let mut items: Vec<FunctionCallOutputContentItem> = Vec::new();
                let item = FunctionCallOutputContentItem::EncryptedContent {
                    encrypted_content: encrypted.to_owned(),
                };
                items.push(item);
                assert(output_items_view(items@) =~= seq![item@]);
                FunctionCallOutputBody::ContentItems(items)
            },
            None => FunctionCallOutputBody::Text(rest.to_text()),
        };
        assert(output@ == plain_output(without_images(result@)));
        if let Some(images) = result.get("images") {
            let images = match images.as_array() {
                Some(images) => images,
                None => {
                    return Err("History backend returned invalid image content.".to_owned());
                },
            };
            let ghost plain = output@;
            let mut content = match output {
                FunctionCallOutputBody::Text(text) => {
                    let mut items: Vec<FunctionCallOutputContentItem> = Vec::new();
                    let item = FunctionCallOutputContentItem::InputText { text };
                    items.push(item);
                    assert(output_items_view(items@) =~= seq![item@]);
                    items
                },
                FunctionCallOutputBody::ContentItems(items) => items,
            };
            assert(output_items_view(content@) == parts_of(plain));
            let mut parts = match parse_images(images, known_details) {
                Some(parts) => parts,
                None => {
                    return Err("History backend returned invalid image content.".to_owned());
                },
            };
            let ghost before = content@;
            let ghost more = parts@;
            content.append(&mut parts);
            assert(output_items_view(content@) =~= output_items_view(before) + output_items_view(more));
            output = FunctionCallOutputBody::ContentItems(content);
        }
        Ok(HistoryNotesToolOutput { redact_observers: false, result: rest, output })
    }

    /// What observers see of the result: nothing of it where it is private, and never its attachments.
    pub fn observer_result(&self) -> (seen: Json)
        ensures
            seen@ == observed(self@),
    {
        if self.redact_observers {
            private_marker()
        } else {
            self.result.duplicate()
        }
    }

    /// What hooks see in place of a private call's arguments once it is over.
    pub fn post_tool_use_input(&self) -> (input: Option<Json>)
        ensures
            match input {
                Some(marker) => self.redact_observers && marker@ == private_view(),
                None => !self.redact_observers,
            },
    {
        if self.redact_observers {
            Some(private_marker())
        } else {
            None
        }
    }

    /// What hooks see of the result once the call is over.
    pub fn post_tool_use_response(&self) -> (response: Option<Json>)
        ensures
            response matches Some(seen) && seen@ == observed(self@),
    {
        Some(self.observer_result())
    }

    /// What the model sees.
    pub fn to_response_output(&self) -> (output: FunctionCallOutputBody)
        ensures
            output@ == self@.output,
    {
        match &self.output {
            FunctionCallOutputBody::Text(text) => FunctionCallOutputBody::Text(text.clone()),
            FunctionCallOutputBody::ContentItems(items) => FunctionCallOutputBody::ContentItems(
                copy_items(items),
            ),
        }
    }

    /// What code sees that calls the tool: that it cannot.
    pub fn code_mode_result() -> (value: Json)
        ensures
            value@ == JsonView::Text("History tools are unavailable in code mode."@),
    {
        Json::text("History tools are unavailable in code mode.")
    }
}

/// What observers see of an output.
pub open spec fn observed(output: ToolOutputView) -> JsonView {
    if output.redact_observers {
        private_view()
    } else {
        output.result
    }
}

/// Observers never see the images of a result.
pub proof fn law_observers_see_no_images(result: JsonView, known: Seq<bool>, redact: bool)
    requires
        tool_output(result, known) is Ok,
    ensures
        field_of(
            observed(ToolOutputView { redact_observers: redact, ..tool_output(result, known)->Ok_0 }),
            "images"@,
        ) is None,
{
    reveal_strlit("images");
    reveal_strlit("local_context_private");
    assert("images"@.len() == 6 && "local_context_private"@.len() == 21);
}

/// Of a private output observers see the same, whatever its result is.
pub proof fn law_private_results_look_alike(left: ToolOutputView, right: ToolOutputView)
    requires
        left.redact_observers,
        right.redact_observers,
    ensures
        observed(left) == observed(right),
{
}

} // verus!
