//! The widget registry: the immutable catalogue of widget definitions
//! loaded once at startup, and the resolution of a widget id to its
//! definition.

use vstd::prelude::*;

use crate::database::DatabaseError;
use crate::widget::{WidgetDefinition, WidgetId};

verus! {

/// The closed enumeration of widget kinds; adding a kind is a source
/// change, not a runtime registration.
#[derive(Debug)]
pub enum WidgetEnum {
    Weather(WidgetDefinition),
}

/// The widget id a catalogue entry carries.
pub open spec fn spec_widget_id(w: WidgetEnum) -> Seq<char> {
    match w {
        WidgetEnum::Weather(d) => d.id@,
    }
}

/// The id of a catalogue entry.
pub fn widget_enum_id(w: &WidgetEnum) -> (r: &WidgetId)
    ensures
        r@ == spec_widget_id(*w),
{
    match w {
        WidgetEnum::Weather(d) => &d.id,
    }
}

/// The startup configuration: the ordered widget catalogue.
#[derive(Debug)]
pub struct Config {
    pub widgets: Vec<WidgetEnum>,
}

impl Config {
    /// Whether some catalogue entry carries id `w`.
    pub open spec fn spec_has_widget(self, w: Seq<char>) -> bool {
        exists|i: int|
            0 <= i < self.widgets@.len() && spec_widget_id(#[trigger] self.widgets@[i]) == w
    }

    /// Resolves a widget id to the first catalogue entry carrying it.
    ///
    /// Fails with `InvalidWidgetId` exactly when no definition carries the
    /// id.
    pub fn resolve(&self, widget_id: &WidgetId) -> (r: Result<&WidgetEnum, DatabaseError>)
        ensures
            r is Ok <==> self.spec_has_widget(widget_id@),
            (match r {
                Ok(w) => exists|i: int|
                    #![trigger self.widgets@[i]]
                    0 <= i < self.widgets@.len() && *w == self.widgets@[i] && spec_widget_id(
                        self.widgets@[i],
                    ) == widget_id@ && (forall|j: int|
                        0 <= j < i ==> spec_widget_id(#[trigger] self.widgets@[j]) != widget_id@),
                Err(e) => e == DatabaseError::InvalidWidgetId,
            }),
    {
        let mut i: usize = 0;
        while i < self.widgets.len()
            invariant
                i <= self.widgets@.len(),
                forall|j: int|
                    0 <= j < i ==> spec_widget_id(#[trigger] self.widgets@[j]) != widget_id@,
            decreases self.widgets@.len() - i,
        {
            let w = &self.widgets[i];
            if *widget_enum_id(w) == *widget_id {
                return Ok(w);
            }
            i += 1;
        }
        Err(DatabaseError::InvalidWidgetId)
    }
}

} // verus!
