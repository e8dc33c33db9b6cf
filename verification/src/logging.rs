//! The fixed shapes of diagnostic log entries. Building the entry text is
//! exact work done here; writing it to the dated log file is I/O left to
//! the process around the library.

use vstd::prelude::*;
use crate::timecode::{dec_chars, dec_string};

verus! {

/// The log entry for one model interaction: the model's name, then the
/// request and the response under their own headers. The caller appends
/// this to the log file.
pub fn log_model_interaction(model_name: &str, request: &str, response: &str) -> (r: String)
    ensures
        r@ == "Model: "@ + model_name@ + "\n--- Request ---\n"@ + request@
            + "\n--- Response ---\n"@ + response@,
{
    let mut r = "Model: ".to_owned();
    r.append(model_name);
    r.append("\n--- Request ---\n");
    r.append(request);
    r.append("\n--- Response ---\n");
    r.append(response);
    proof {
        assert(r@ =~= "Model: "@ + model_name@ + "\n--- Request ---\n"@ + request@
            + "\n--- Response ---\n"@ + response@);
    }
    r
}

/// The log entry for a generation-service response: endpoint, numeric
/// status, body. The caller appends this to the log file.
pub fn log_gemini_response(endpoint: &str, status: u16, response: &str) -> (r: String)
    ensures
        r@ == "RESPONSE from "@ + endpoint@ + " (Status: "@ + dec_chars(status as nat)
            + ")\nBody: "@ + response@,
{
    let mut r = "RESPONSE from ".to_owned();
    r.append(endpoint);
    r.append(" (Status: ");
    let st = dec_string(status as u64);
    r.append(st.as_str());
    r.append(")\nBody: ");
    r.append(response);
    proof {
        assert(r@ =~= "RESPONSE from "@ + endpoint@ + " (Status: "@ + dec_chars(status as nat)
            + ")\nBody: "@ + response@);
    }
    r
}

/// The log entry for one incoming request: method and endpoint, then the
/// parameters. The caller appends this to the log file.
pub fn log_api_request(endpoint: &str, method: &str, params: &str) -> (r: String)
    ensures
        r@ == method@ + " "@ + endpoint@ + "\nParams: "@ + params@,
{
    let mut r = method.to_owned();
    r.append(" ");
    r.append(endpoint);
    r.append("\nParams: ");
    r.append(params);
    proof {
        assert(r@ =~= method@ + " "@ + endpoint@ + "\nParams: "@ + params@);
    }
    r
}

/// The log entry for a failed request: endpoint, context, and the error
/// text. The caller appends this to the log file.
pub fn log_api_error(endpoint: &str, error: &str, context: &str) -> (r: String)
    ensures
        r@ == "Endpoint: "@ + endpoint@ + "\nContext: "@ + context@ + "\nError: "@ + error@,
{
    let mut r = "Endpoint: ".to_owned();
    r.append(endpoint);
    r.append("\nContext: ");
    r.append(context);
    r.append("\nError: ");
    r.append(error);
    proof {
        assert(r@ =~= "Endpoint: "@ + endpoint@ + "\nContext: "@ + context@ + "\nError: "@
            + error@);
    }
    r
}

/// The project kind assumed for an import that names none.
pub fn default_project_type() -> (r: Option<String>)
    ensures
        match r {
            Some(s) => s@ == "video"@,
            None => false,
        },
{
    Some("video".to_owned())
}

} // verus!
