use vstd::prelude::*;
use crate::format::{scale_views, ImageFormat, Scale, ScaleView};
use crate::matcher::SuggestionPolicy;
use crate::resolver::text_of;

verus! {

/// What an export is configured with. The values are taken as valid.
#[derive(Clone, Debug, PartialEq, Eq)]
pub struct ExportSettings {
    /// The document to export from.
    pub file_id: String,
    /// The canvas to search; every canvas where there is none.
    pub page_name: Option<String>,
    /// The frame whose children are the images.
    pub container_name: String,
    /// The directory below which the images are placed.
    pub res_dir: String,
    /// The scales at which images are rendered, in the order in which
    /// they are exported.
    pub scales: Vec<Scale>,
    pub format: ImageFormat,
    /// The quality asked of a re-encoding, in thousandths.
    pub quality_milli: u32,
    pub policy: SuggestionPolicy,
}

pub struct SettingsView {
    pub file_id: Seq<char>,
    pub page: Option<Seq<char>>,
    pub container: Seq<char>,
    pub res_dir: Seq<char>,
    pub scales: Seq<ScaleView>,
    pub format: ImageFormat,
    pub quality_milli: u32,
    pub cutoff: nat,
    pub limit: nat,
}

impl View for ExportSettings {
    type V = SettingsView;

    open spec fn view(&self) -> SettingsView {
        SettingsView {
            file_id: self.file_id@,
            page: text_of(self.page_name),
            container: self.container_name@,
            res_dir: self.res_dir@,
            scales: scale_views(self.scales@),
            format: self.format,
            quality_milli: self.quality_milli,
            cutoff: self.policy.max_distance as nat,
            limit: self.policy.max_suggestions as nat,
        }
    }
}

} // verus!
