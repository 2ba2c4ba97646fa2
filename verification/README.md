# greentic_messaging

The decision logic of a multi-platform messaging runtime, written in Verus
and proved against its contracts: admin provisioning validation, provider
pack inspection and runs, flow registration and routing, the runner's flow
steps and card templates, question-and-answer extraction, subscription
sync decisions, conformance and end-to-end stage reports, the Slack OAuth
state, the fixture runner, and the decisions of the developer command line.

Layout:

- `src/` — the verified library, one module per area (`admin`, `admin_api`,
  `packs`, `runner`, `qa`, `subscriptions`, `conformance`, `e2e`, `oauth`,
  `fixtures`, `dev_cli`, `validator`, …) over shared models of text
  (`text`), ordered maps (`strmap`) and JSON values (`json`).
- `tests/` — tests of the library on concrete values.
- `app/` — the unverified shell around the library: HTTP routes, process
  and file handling, command-line parsing, template rendering and agent
  calls, each handing plain values to the library and taking its results.
