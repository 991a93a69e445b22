# edit_guard

Guards that judge an automated edit before it is accepted, verified with Verus.

- Scope anomaly: is the edit wildly out of proportion to the task that was
  asked for? The expected scope comes from the user's prompt or from the agent's
  plan, the actual scope from the results of the editing tools.
- Syntax validation: does the edited buffer hold more syntax errors than before?

Layout:

- `src/scope_anomaly.rs`, `src/ast_validation.rs`: the two guards
- `src/plan.rs`, `src/diff.rs`, `src/tool_results.rs`: what they read
- `src/ratio.rs`: ratios of counts in single precision, in whole numbers
- `src/text.rs`, `src/number.rs`: texts and decimal numbers
- `src/unicode.rs`: the functions of `std` on characters that are believed
- `src/laws.rs`: what holds of the guards as a whole
- `app/`: the guards with floating-point ratios and editor buffers
