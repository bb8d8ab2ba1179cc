use vstd::prelude::*;
use crate::chars::{concat, decimal, decimal_u64, from_chars, push_all, push_text};
use crate::error::{AppError, ErrorCode};
use crate::path::{join_path, join_path_spec};
use crate::search::{trim, trim_spec};
use crate::chars::{int_chars, int_text};
use crate::error::{normalized_or_error, path_failure, ErrorView};
use crate::path::{normalize_spec, DocId, LocationId, Normalized};
use crate::settings::{CaptureDocRef, CaptureMode, GlobalCaptureSettings};

verus! {

/// What the tray's pause entry says.
pub fn tray_pause_label(paused: bool) -> (out: &'static str)
    ensures
        out@ == if paused {
            "Resume Shortcut"@
        } else {
            "Pause Shortcut"@
        },
{
    if paused {
        "Resume Shortcut"
    } else {
        "Pause Shortcut"
    }
}

/// What the tray says of the shortcut.
pub fn tray_shortcut_status(settings: &GlobalCaptureSettings) -> (out: String)
    ensures
        out@ == if !settings.enabled {
            "Shortcut: Disabled"@
        } else if settings.paused {
            "Shortcut: Paused ("@ + settings.shortcut@ + ")"@
        } else {
            "Shortcut: "@ + settings.shortcut@
        },
{
    if !settings.enabled {
        return "Shortcut: Disabled".to_string();
    }
    if settings.paused {
        let head = concat("Shortcut: Paused (", settings.shortcut.as_str());
        return concat(head.as_str(), ")");
    }
    concat("Shortcut: ", settings.shortcut.as_str())
}

/// What the tray says of the last capture.
pub fn tray_target_status(settings: &GlobalCaptureSettings) -> (out: String)
    ensures
        out@ == match settings.last_capture_target {
            Some(target) => "Last target: "@ + target@,
            None => "Last target: none"@,
        },
{
    match &settings.last_capture_target {
        Some(target) => concat("Last target: ", target.as_str()),
        None => "Last target: none".to_string(),
    }
}

/// A moment of local time.
#[derive(Debug, Clone, Copy, PartialEq, Eq, Structural)]
pub struct LocalMoment {
    pub year: u16,
    pub month: u8,
    pub day: u8,
    pub hour: u8,
    pub minute: u8,
    pub second: u8,
    pub millisecond: u16,
}

/// A number in at least `width` decimal digits, with leading zeros.
pub open spec fn padded(n: nat, width: nat) -> Seq<char> {
    let digits = decimal(n);
    if digits.len() >= width {
        digits
    } else {
        Seq::new((width - digits.len()) as nat, |i: int| '0') + digits
    }
}

fn push_padded(out: &mut Vec<char>, n: u64, width: usize)
    ensures
        final(out)@ == old(out)@ + padded(n as nat, width as nat),
{
    let digits = decimal_u64(n);
    let ghost base = out@;
    let mut k: usize = digits.len();
    while k < width
        invariant
            digits.len() <= k,
            k <= width || k == digits.len(),
            out@ == base + Seq::new((k - digits.len()) as nat, |i: int| '0'),
        decreases width - k,
    {
        out.push('0');
        proof {
            assert(out@ =~= base + Seq::new((k + 1 - digits.len()) as nat, |i: int| '0'));
        }
        k += 1;
    }
    let ghost zeros = out@;
    push_all(out, &digits);
    proof {
        if digits.len() >= width {
            assert(zeros =~= base);
        } else {
            assert(out@ =~= base + (Seq::new((width - digits.len()) as nat, |i: int| '0')
                + digits@));
        }
    }
}

/// The name of a quick note taken at a moment: date and time to the millisecond.
pub open spec fn quick_note_name(m: LocalMoment) -> Seq<char> {
    padded(m.year as nat, 4) + "-"@ + padded(m.month as nat, 2) + "-"@ + padded(m.day as nat, 2)
        + "_"@ + padded(m.hour as nat, 2) + "-"@ + padded(m.minute as nat, 2) + "-"@ + padded(
        m.second as nat,
        2,
    ) + "."@ + padded(m.millisecond as nat, 3) + ".md"@
}

/// The path of a quick note taken at a moment: below the inbox, in a
/// directory of the year.
pub fn generate_quick_note_path(inbox_dir: &str, moment: LocalMoment) -> (out: String)
    ensures
        out@ == join_path_spec(
            join_path_spec(inbox_dir@, padded(moment.year as nat, 4)),
            quick_note_name(moment),
        ),
{
    let mut year: Vec<char> = Vec::new();
    push_padded(&mut year, moment.year as u64, 4);
    let mut name: Vec<char> = Vec::new();
    push_padded(&mut name, moment.year as u64, 4);
    push_text(&mut name, "-");
    push_padded(&mut name, moment.month as u64, 2);
    push_text(&mut name, "-");
    push_padded(&mut name, moment.day as u64, 2);
    push_text(&mut name, "_");
    push_padded(&mut name, moment.hour as u64, 2);
    push_text(&mut name, "-");
    push_padded(&mut name, moment.minute as u64, 2);
    push_text(&mut name, "-");
    push_padded(&mut name, moment.second as u64, 2);
    push_text(&mut name, ".");
    push_padded(&mut name, moment.millisecond as u64, 3);
    push_text(&mut name, ".md");
    proof {
        assert(year@ =~= padded(moment.year as nat, 4));
        assert(name@ =~= quick_note_name(moment));
    }
    let dir = join_path(inbox_dir, from_chars(&year).as_str());
    join_path(dir.as_str(), from_chars(&name).as_str())
}

/// Refuses a text that is empty once trimmed, with the given message.
pub fn require_text(text: &str, message: &str) -> (result: Result<(), AppError>)
    ensures
        match result {
            Ok(()) => trim_spec(text@).len() > 0,
            Err(e) => trim_spec(text@).len() == 0 && e@ == (
                ErrorCode::InvalidPath,
                message@,
                None::<Seq<char>>,
            ),
        },
{
    let trimmed = trim(&crate::chars::to_chars(text));
    if trimmed.len() == 0 {
        Err(AppError::new(ErrorCode::InvalidPath, message))
    } else {
        Ok(())
    }
}

/// What a capture reports.
#[derive(Debug, Clone, PartialEq, Eq)]
pub struct CaptureSubmitResult {
    pub success: bool,
    pub saved_to: Option<String>,
    pub location_id: i64,
    pub should_close: bool,
    pub last_capture_target: Option<String>,
}

/// Where a capture goes: the document to save, whether the text is added
/// to what the document holds, and what is reported once it is saved.
#[derive(Debug, Clone, PartialEq, Eq)]
pub struct CapturePlan {
    pub doc_id: DocId,
    pub append: bool,
    pub saved_to: String,
    pub should_close: bool,
    pub last_capture_target: String,
}

/// A capture plan as plain values.
pub struct CapturePlanView {
    pub location_id: i64,
    pub rel_path: Seq<char>,
    pub append: bool,
    pub saved_to: Seq<char>,
    pub should_close: bool,
    pub last_capture_target: Seq<char>,
}

impl View for CapturePlan {
    type V = CapturePlanView;

    open spec fn view(&self) -> CapturePlanView {
        CapturePlanView {
            location_id: self.doc_id.location_id.0,
            rel_path: self.doc_id.rel_path@,
            append: self.append,
            saved_to: self.saved_to@,
            should_close: self.should_close,
            last_capture_target: self.last_capture_target@,
        }
    }
}

/// The path of a quick note taken at a moment.
pub open spec fn quick_note_path_spec(inbox_dir: Seq<char>, moment: LocalMoment) -> Seq<char> {
    join_path_spec(join_path_spec(inbox_dir, padded(moment.year as nat, 4)), quick_note_name(moment))
}

/// A capture's target as it is remembered: location and path.
pub open spec fn target_text(location_id: i64, rel_path: Seq<char>) -> Seq<char> {
    int_text(location_id as int) + "/"@ + rel_path
}

/// The plan of a capture for a target document.
pub open spec fn plan_for(
    location_id: i64,
    target: Seq<char>,
    append: bool,
    should_close: bool,
) -> Result<CapturePlanView, ErrorView> {
    match normalize_spec(target) {
        Normalized::Path(rel_path) => Ok(
            CapturePlanView {
                location_id,
                rel_path,
                append,
                saved_to: target,
                should_close,
                last_capture_target: target_text(location_id, target),
            },
        ),
        _ => Err(path_failure(target)),
    }
}

/// Where a capture goes. The text must hold more than white space. The
/// capture goes to the target location, or to the first location where
/// none is set; there must be one. A quick note and a writing session
/// make a new note in the inbox; an append adds to the configured
/// document. A writing session never closes the capture window.
pub open spec fn plan_capture_spec(
    mode: CaptureMode,
    text: Seq<char>,
    target_location_id: Option<i64>,
    first_location: Option<LocationId>,
    inbox_dir: Seq<char>,
    append_target: Option<CaptureDocRef>,
    close_after_save: bool,
    moment: LocalMoment,
) -> Result<CapturePlanView, ErrorView> {
    if trim_spec(text).len() == 0 {
        Err(crate::error::failure(ErrorCode::InvalidPath, "Capture text cannot be empty"@))
    } else if target_location_id is None && first_location is None {
        Err(
            crate::error::failure(
                ErrorCode::NotFound,
                "No location configured. Please add a location first."@,
            ),
        )
    } else {
        let location_id = match target_location_id {
            Some(id) => id,
            None => first_location.unwrap().0,
        };
        match mode {
            CaptureMode::QuickNote => plan_for(
                location_id,
                quick_note_path_spec(inbox_dir, moment),
                false,
                close_after_save,
            ),
            CaptureMode::WritingSession => plan_for(
                location_id,
                quick_note_path_spec(inbox_dir, moment),
                false,
                false,
            ),
            CaptureMode::Append => match append_target {
                Some(t) => plan_for(t.location_id, t.rel_path@, true, close_after_save),
                None => Err(
                    crate::error::failure(ErrorCode::InvalidPath, "No append target configured"@),
                ),
            },
        }
    }
}

pub open spec fn plan_result_view(r: Result<CapturePlan, AppError>) -> Result<CapturePlanView, ErrorView> {
    match r {
        Ok(p) => Ok(p@),
        Err(e) => Err(e@),
    }
}

fn plan_target(location_id: i64, target: String, append: bool, should_close: bool) -> (result: Result<
    CapturePlan,
    AppError,
>)
    ensures
        plan_result_view(result) == plan_for(location_id, target@, append, should_close),
{
    let rel_path = normalized_or_error(target.as_str())?;
    let mut remembered = int_chars(location_id);
    push_text(&mut remembered, "/");
    push_text(&mut remembered, target.as_str());
    Ok(
        CapturePlan {
            doc_id: DocId { location_id: LocationId(location_id), rel_path },
            append,
            saved_to: target,
            should_close,
            last_capture_target: from_chars(&remembered),
        },
    )
}

/// Decides where a capture goes, from its mode, its text, the configured
/// targets, the first registered location and the moment of the capture.
pub fn plan_capture(
    mode: CaptureMode,
    text: &str,
    target_location_id: Option<i64>,
    first_location: Option<LocationId>,
    inbox_dir: &str,
    append_target: &Option<CaptureDocRef>,
    close_after_save: bool,
    moment: LocalMoment,
) -> (result: Result<CapturePlan, AppError>)
    ensures
        plan_result_view(result) == plan_capture_spec(
            mode,
            text@,
            target_location_id,
            first_location,
            inbox_dir@,
            *append_target,
            close_after_save,
            moment,
        ),
{
    require_text(text, "Capture text cannot be empty")?;
    let location_id = match target_location_id {
        Some(id) => id,
        None => match first_location {
            Some(l) => l.0,
            None => {
                return Err(
                    AppError::new(
                        ErrorCode::NotFound,
                        "No location configured. Please add a location first.",
                    ),
                );
            },
        },
    };
    match mode {
        CaptureMode::QuickNote => plan_target(
            location_id,
            generate_quick_note_path(inbox_dir, moment),
            false,
            close_after_save,
        ),
        CaptureMode::WritingSession => plan_target(
            location_id,
            generate_quick_note_path(inbox_dir, moment),
            false,
            false,
        ),
        CaptureMode::Append => match append_target {
            Some(t) => plan_target(t.location_id, t.rel_path.clone(), true, close_after_save),
            None => Err(AppError::new(ErrorCode::InvalidPath, "No append target configured")),
        },
    }
}

/// The text that a capture saves: the captured text, or, where it is
/// added to a document that holds text, that text, an empty line, and the
/// captured text.
pub fn capture_text(existing: &str, text: &str) -> (out: String)
    ensures
        out@ == if existing@.len() == 0 {
            text@
        } else {
            existing@ + "\n\n"@ + text@
        },
{
    if existing.is_empty() {
        text.to_string()
    } else {
        let head = concat(existing, "\n\n");
        concat(head.as_str(), text)
    }
}

/// What a capture reports once its document is saved.
pub fn capture_result(plan: &CapturePlan, success: bool) -> (out: CaptureSubmitResult)
    ensures
        out.success == success,
        out.saved_to matches Some(s) && s@ == plan.saved_to@,
        out.location_id == plan.doc_id.location_id.0,
        out.should_close == plan.should_close,
        out.last_capture_target matches Some(t) && t@ == plan.last_capture_target@,
{
    CaptureSubmitResult {
        success,
        saved_to: Some(plan.saved_to.clone()),
        location_id: plan.doc_id.location_id.0,
        should_close: plan.should_close,
        last_capture_target: Some(plan.last_capture_target.clone()),
    }
}

} // verus!
