# hydra

Hydra moves the workload of a cloud instance that is about to be reclaimed
(a spot or preemptible instance) to a replacement instance: it waits for the
termination notice, starts the replacement, checkpoints the running Docker
containers, carries their images and checkpoints over SSH and restores them
on the other side.

`src/` is the verified library (Verus): the decisions and the data that the
migration builds up — the container map and restore plan, checkpoint names,
commit and import settings, the known-hosts update, the SSH connection and
remote-command state machines, the termination poll, the Google Cloud
metadata edit and naming, the archive layout and the SFTP transfer plan.
`app/` is the program around it: the command line, Docker, SSH, SFTP, HTTP,
cloud SDK and file-system calls.
