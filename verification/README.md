# blog_dns_d

A tiny DNS responder that answers one configured name with one TXT record.

- `src/` is the verified library: the flag word of the header (`flags`), the
  header and question tail in network byte order (`header`, `wire`), the
  output buffer (`buffer`), reading a question's name (`qname`), names of query
  types and classes (`names`), and the decision of how to answer a query and
  the layout of each reply (`response`).
- `app/main.rs` is the server: command-line options, logging, the UDP socket
  and the receive/send loop.
