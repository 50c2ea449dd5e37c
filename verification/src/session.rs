//! The two bodies of a session-creation exchange.

use vstd::prelude::*;
use vstd::string::*;

verus! {

/// What the new item is to be: its type tag, what to do where an item of
/// that name exists already, and its name.
#[derive(Debug, Clone, PartialEq, Eq)]
pub struct Item {
    pub odata_type: String,
    pub microsoft_graph_conflict_behavior: String,
    pub name: String,
}

/// Body of the request that opens an upload session.
#[derive(Debug, Clone, PartialEq, Eq)]
pub struct OneDriveUploadSessionCreationRequestBody {
    pub item: Item,
}

/// Body of the response to it: where the chunks go, and until when.
#[derive(Debug, Clone, PartialEq, Eq)]
pub struct OneDriveUploadSessionCreationResponseBody {
    pub upload_url: String,
    pub expiration_date_time: String,
}

/// Mathematical model of an [`Item`].
pub struct ItemView {
    pub odata_type: Seq<char>,
    pub microsoft_graph_conflict_behavior: Seq<char>,
    pub name: Seq<char>,
}

/// Mathematical model of a session-creation request body.
pub struct RequestBodyView {
    pub item: ItemView,
}

/// Mathematical model of a session-creation response body.
pub struct SessionView {
    pub upload_url: Seq<char>,
    pub expiration_date_time: Seq<char>,
}

impl View for Item {
    type V = ItemView;

    open spec fn view(&self) -> ItemView {
        ItemView {
            odata_type: self.odata_type@,
            microsoft_graph_conflict_behavior: self.microsoft_graph_conflict_behavior@,
            name: self.name@,
        }
    }
}

impl View for OneDriveUploadSessionCreationRequestBody {
    type V = RequestBodyView;

    open spec fn view(&self) -> RequestBodyView {
        RequestBodyView { item: self.item@ }
    }
}

impl View for OneDriveUploadSessionCreationResponseBody {
    type V = SessionView;

    open spec fn view(&self) -> SessionView {
        SessionView {
            upload_url: self.upload_url@,
            expiration_date_time: self.expiration_date_time@,
        }
    }
}

/// The request body that asks for a session to upload a file named
/// `name`, replacing any item of that name.
pub open spec fn creation_request(name: Seq<char>) -> RequestBodyView {
    RequestBodyView {
        item: ItemView {
            odata_type: "microsoft.graph.driveItemUploadableProperties"@,
            microsoft_graph_conflict_behavior: "replace"@,
            name,
        },
    }
}

impl OneDriveUploadSessionCreationRequestBody {
    /// Asks for a session to upload a file named `path`.
    pub fn new(path: String) -> (body: Self)
        ensures
            body@ == creation_request(path@),
    {
        OneDriveUploadSessionCreationRequestBody {
            item: Item {
                odata_type: String::from_str("microsoft.graph.driveItemUploadableProperties"),
                microsoft_graph_conflict_behavior: String::from_str("replace"),
                name: path,
            },
        }
    }
}

} // verus!
