# workflow_run

A verified engine for runs of agent workflows: graphs of agents, loops and iterations, with
automatic retries, restarts and resumes.

- `text`, `json`, `template`, `sessions`: texts, JSON documents, prompt templates, call logs.
- `graph`, `document`: workflows, and the JSON documents that describe them.
- `failure`, `attempts`: why an attempt failed, and which failure the next attempt is told about.
- `pool`, `model`: the variables of a run, and what each event does to it.
- `run`, `drive`: runs, and what a run needs next from whoever drives it.
- `kept`, `laws`: what holds of every run, and what the parts promise together.
- `samples`: sample workflow documents.

What is believed without proof stands in `json` (calls into `serde_json`) and in `text`
(`String::push`). `app` drives runs with a real clock and real files.
