//! The snapshot of the application state shown before any model is configured.
use vstd::prelude::*;
use crate::text::lit;

verus! {

#[derive(Debug, Clone)]
pub struct AppSnapshot {
    pub readiness: String,
    pub model_name: String,
    pub shortcut: String,
    pub microphone_name: String,
}

impl Default for AppSnapshot {
    fn default() -> (r: Self)
        ensures
            r.readiness@ == "model-required"@,
            r.model_name@ == "未配置模型"@,
            r.shortcut@ == "CapsLock"@,
            r.microphone_name@ == "默认麦克风"@,
    {
        AppSnapshot {
            readiness: lit("model-required"),
            model_name: lit("未配置模型"),
            shortcut: lit("CapsLock"),
            microphone_name: lit("默认麦克风"),
        }
    }
}

} // verus!
