//! The persisted entity: a short-link record keyed by
//! `(namespace, short_form)`.

use vstd::prelude::*;

verus! {

/// A single short-link entry as read and written by callers: the short form,
/// the long form it redirects to, and the server-side creation timestamp
/// (an opaque text stamp set at write time).
#[derive(Debug)]
pub struct Link {
    pub short_form: String,
    pub long_form: String,
    pub created_at: String,
}

/// Mathematical value of a [`Link`]: each field as a sequence of characters.
pub struct LinkModel {
    pub short_form: Seq<char>,
    pub long_form: Seq<char>,
    pub created_at: Seq<char>,
}

impl View for Link {
    type V = LinkModel;

    open spec fn view(&self) -> LinkModel {
        LinkModel {
            short_form: self.short_form@,
            long_form: self.long_form@,
            created_at: self.created_at@,
        }
    }
}

impl DeepView for Link {
    type V = LinkModel;

    open spec fn deep_view(&self) -> LinkModel {
        self.view()
    }
}

/// One row of the record table: a [`Link`] together with the namespace it
/// lives in.
#[derive(Debug)]
pub struct Record {
    pub namespace: String,
    pub short_form: String,
    pub long_form: String,
    pub created_at: String,
}

/// Mathematical value of a [`Record`].
pub struct RecordModel {
    pub namespace: Seq<char>,
    pub short_form: Seq<char>,
    pub long_form: Seq<char>,
    pub created_at: Seq<char>,
}

impl View for Record {
    type V = RecordModel;

    open spec fn view(&self) -> RecordModel {
        RecordModel {
            namespace: self.namespace@,
            short_form: self.short_form@,
            long_form: self.long_form@,
            created_at: self.created_at@,
        }
    }
}

impl DeepView for Record {
    type V = RecordModel;

    open spec fn deep_view(&self) -> RecordModel {
        self.view()
    }
}

/// The link a record carries, with the namespace stripped.
pub open spec fn link_of(r: RecordModel) -> LinkModel {
    LinkModel { short_form: r.short_form, long_form: r.long_form, created_at: r.created_at }
}

} // verus!
