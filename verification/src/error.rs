//! The error type of the library and its message text.

use vstd::prelude::*;
use crate::text::{push_ticked, ticked, decimal, push_decimal, push_signed_decimal, signed_decimal, trim, trimmed};

verus! {

/// Everything that can go wrong while building or running a plan.
#[derive(Debug, Clone, PartialEq, Eq)]
pub enum FacilityError {
    CommandFailed { command: String, code: Option<i32>, stderr: String },
    DuplicateName { kind: &'static str, name: String },
    EmptyWorkload { pod: String },
    EmptyCommand { context: &'static str },
    InvalidName { kind: &'static str, name: String, reason: &'static str },
    NamespaceSyscall { syscall: &'static str, detail: String },
    MissingCommand { command: &'static str },
    ThreadPanicked,
    TooManyItems { kind: &'static str, max: usize, actual: usize },
    UnknownNode { pod: String, node: String },
    UnknownNodeName { name: String },
    UnknownPod { name: String },
    UnsupportedPlatform { current: &'static str },
}

/// `FacilityError` with its strings taken by their characters.
pub enum FacilityErrorView {
    CommandFailed { command: Seq<char>, code: Option<i32>, stderr: Seq<char> },
    DuplicateName { kind: Seq<char>, name: Seq<char> },
    EmptyWorkload { pod: Seq<char> },
    EmptyCommand { context: Seq<char> },
    InvalidName { kind: Seq<char>, name: Seq<char>, reason: Seq<char> },
    NamespaceSyscall { syscall: Seq<char>, detail: Seq<char> },
    MissingCommand { command: Seq<char> },
    ThreadPanicked,
    TooManyItems { kind: Seq<char>, max: usize, actual: usize },
    UnknownNode { pod: Seq<char>, node: Seq<char> },
    UnknownNodeName { name: Seq<char> },
    UnknownPod { name: Seq<char> },
    UnsupportedPlatform { current: Seq<char> },
}

impl View for FacilityError {
    type V = FacilityErrorView;

    open spec fn view(&self) -> FacilityErrorView {
        match self {
            FacilityError::CommandFailed { command, code, stderr } => FacilityErrorView::CommandFailed {
                command: command@,
                code: *code,
                stderr: stderr@,
            },
            FacilityError::DuplicateName { kind, name } => FacilityErrorView::DuplicateName {
                kind: kind@,
                name: name@,
            },
            FacilityError::EmptyWorkload { pod } => FacilityErrorView::EmptyWorkload { pod: pod@ },
            FacilityError::EmptyCommand { context } => FacilityErrorView::EmptyCommand {
                context: context@,
            },
            FacilityError::InvalidName { kind, name, reason } => FacilityErrorView::InvalidName {
                kind: kind@,
                name: name@,
                reason: reason@,
            },
            FacilityError::NamespaceSyscall { syscall, detail } => FacilityErrorView::NamespaceSyscall {
                syscall: syscall@,
                detail: detail@,
            },
            FacilityError::MissingCommand { command } => FacilityErrorView::MissingCommand {
                command: command@,
            },
            FacilityError::ThreadPanicked => FacilityErrorView::ThreadPanicked,
            FacilityError::TooManyItems { kind, max, actual } => FacilityErrorView::TooManyItems {
                kind: kind@,
                max: *max,
                actual: *actual,
            },
            FacilityError::UnknownNode { pod, node } => FacilityErrorView::UnknownNode {
                pod: pod@,
                node: node@,
            },
            FacilityError::UnknownNodeName { name } => FacilityErrorView::UnknownNodeName {
                name: name@,
            },
            FacilityError::UnknownPod { name } => FacilityErrorView::UnknownPod { name: name@ },
            FacilityError::UnsupportedPlatform { current } => FacilityErrorView::UnsupportedPlatform {
                current: current@,
            },
        }
    }
}

/// A result taken by views on both sides.
pub open spec fn result_view<T: View>(r: Result<T, FacilityError>) -> Result<T::V, FacilityErrorView> {
    match r {
        Ok(t) => Ok(t@),
        Err(e) => Err(e@),
    }
}

/// `{:?}` of an optional exit code.
pub open spec fn debug_code(code: Option<i32>) -> Seq<char> {
    match code {
        Some(c) => "Some("@ + signed_decimal(c as int) + ")"@,
        None => "None"@,
    }
}

/// The one-line message of an error.
pub open spec fn error_message(e: FacilityErrorView) -> Seq<char> {
    match e {
        FacilityErrorView::CommandFailed { command, code, stderr } => "command failed: "@ + ticked(
            command,
        ) + " exited with "@ + debug_code(code) + ": "@ + trim(stderr),
        FacilityErrorView::DuplicateName { kind, name } => "duplicate "@ + kind + " name "@ + ticked(
            name,
        ),
        FacilityErrorView::EmptyWorkload { pod } => "pod "@ + ticked(pod)
            + " has an empty workload command"@,
        FacilityErrorView::EmptyCommand { context } => context + " command must not be empty"@,
        FacilityErrorView::InvalidName { kind, name, reason } => "invalid "@ + kind + " name "@
            + ticked(name) + ": "@ + reason,
        FacilityErrorView::NamespaceSyscall { syscall, detail } => syscall + " failed: "@ + detail,
        FacilityErrorView::MissingCommand { command } => "required command "@ + ticked(command)
            + " was not found in PATH"@,
        FacilityErrorView::ThreadPanicked => "namespace thread panicked"@,
        FacilityErrorView::TooManyItems { kind, max, actual } => "too many "@ + kind + ": max "@
            + decimal(max as nat) + ", got "@ + decimal(actual as nat),
        FacilityErrorView::UnknownNode { pod, node } => "pod "@ + ticked(pod)
            + " references unknown node "@ + ticked(node),
        FacilityErrorView::UnknownNodeName { name } => "unknown node "@ + ticked(name),
        FacilityErrorView::UnknownPod { name } => "unknown pod "@ + ticked(name),
        FacilityErrorView::UnsupportedPlatform { current } =>
            "Linux namespace execution is unsupported on "@ + ticked(current),
    }
}

impl FacilityError {
    /// The message that `Display` shows for this error.
    pub fn message(&self) -> (r: String)
        ensures
            r@ == error_message(self@),
    {
        let mut out = String::new();
        match self {
            FacilityError::CommandFailed { command, code, stderr } => {
                out.append("command failed: ");
                push_ticked(&mut out, command.as_str());
                out.append(" exited with ");
                match code {
                    Some(c) => {
                        out.append("Some(");
                        push_signed_decimal(&mut out, *c);
                        out.append(")");
                    },
                    None => {
                        out.append("None");
                    },
                }
                let t = trimmed(stderr.as_str());
                out.append(": ");
                out.append(t.as_str());
            },
            FacilityError::DuplicateName { kind, name } => {
                out.append("duplicate ");
                out.append(kind);
                out.append(" name ");
                push_ticked(&mut out, name.as_str());
            },
            FacilityError::EmptyWorkload { pod } => {
                out.append("pod ");
                push_ticked(&mut out, pod.as_str());
                out.append(" has an empty workload command");
            },
            FacilityError::EmptyCommand { context } => {
                out.append(context);
                out.append(" command must not be empty");
            },
            FacilityError::InvalidName { kind, name, reason } => {
                out.append("invalid ");
                out.append(kind);
                out.append(" name ");
                push_ticked(&mut out, name.as_str());
                out.append(": ");
                out.append(reason);
            },
            FacilityError::NamespaceSyscall { syscall, detail } => {
                out.append(syscall);
                out.append(" failed: ");
                out.append(detail.as_str());
            },
            FacilityError::MissingCommand { command } => {
                out.append("required command ");
                push_ticked(&mut out, command);
                out.append(" was not found in PATH");
            },
            FacilityError::ThreadPanicked => {
                out.append("namespace thread panicked");
            },
            FacilityError::TooManyItems { kind, max, actual } => {
                out.append("too many ");
                out.append(kind);
                out.append(": max ");
                push_decimal(&mut out, *max);
                out.append(", got ");
                push_decimal(&mut out, *actual);
            },
            FacilityError::UnknownNode { pod, node } => {
                out.append("pod ");
                push_ticked(&mut out, pod.as_str());
                out.append(" references unknown node ");
                push_ticked(&mut out, node.as_str());
            },
            FacilityError::UnknownNodeName { name } => {
                out.append("unknown node ");
                push_ticked(&mut out, name.as_str());
            },
            FacilityError::UnknownPod { name } => {
                out.append("unknown pod ");
                push_ticked(&mut out, name.as_str());
            },
            FacilityError::UnsupportedPlatform { current } => {
                out.append("Linux namespace execution is unsupported on ");
                push_ticked(&mut out, current);
            },
        }
        proof { assert(out@ =~= error_message(self@)); }
        out
    }
}

} // verus!
